//! The header codec: bit-level encoding and decoding of the (major type,
//! argument) pair that introduces every data item.
//!
//! Byte layout: bits 7-5 of the first byte carry the major type, bits 4-0
//! the argument selector. Selectors 0 to 23 mean "the argument is this
//! literal value"; 24, 25, 26 and 27 mean "the argument follows in the next
//! 1, 2, 4 or 8 bytes, big-endian"; 28 to 30 are reserved and always an
//! error; 31 marks an indefinite-length item (or, with the last major type,
//! the break marker).

use vstd::prelude::*;
use vstd::array::ArrayAdditionalExecFns;
use vstd::slice::slice_index_get;

use crate::error::Error;

verus! {

broadcast use vstd::array::group_array_axioms;

/// The top-level kind tag of a data item.
#[derive(Debug, Copy, Clone, PartialEq, Eq, Structural)]
pub enum Major {
    Positive,
    Negative,
    Bytes,
    Text,
    Array,
    Mapping,
    Tag,
    Other,
}

/// The numeric code of a major type (0 to 7).
pub open spec fn spec_major_code(m: Major) -> u8 {
    match m {
        Major::Positive => 0,
        Major::Negative => 1,
        Major::Bytes => 2,
        Major::Text => 3,
        Major::Array => 4,
        Major::Mapping => 5,
        Major::Tag => 6,
        Major::Other => 7,
    }
}

/// The major type encoded in the top three bits of a header byte.
pub open spec fn spec_major_of(b: u8) -> Major {
    let c = b >> 5;
    if c == 0 {
        Major::Positive
    } else if c == 1 {
        Major::Negative
    } else if c == 2 {
        Major::Bytes
    } else if c == 3 {
        Major::Text
    } else if c == 4 {
        Major::Array
    } else if c == 5 {
        Major::Mapping
    } else if c == 6 {
        Major::Tag
    } else {
        Major::Other
    }
}

impl Major {
    /// The major type of a header byte: its top three bits.
    pub fn from_byte(b: u8) -> (m: Major)
        ensures
            m == spec_major_of(b),
    {
        let c = b >> 5;
        if c == 0 {
            Major::Positive
        } else if c == 1 {
            Major::Negative
        } else if c == 2 {
            Major::Bytes
        } else if c == 3 {
            Major::Text
        } else if c == 4 {
            Major::Array
        } else if c == 5 {
            Major::Mapping
        } else if c == 6 {
            Major::Tag
        } else {
            Major::Other
        }
    }

    /// The byte with this major type in its top three bits and zeros below.
    pub(crate) fn as_byte(self) -> (b: u8)
        ensures
            b == spec_major_code(self) << 5u8,
    {
        proof {
            assert(0u8 << 5u8 == 0x00 && 1u8 << 5u8 == 0x20 && 2u8 << 5u8 == 0x40 && 3u8 << 5u8
                == 0x60 && 4u8 << 5u8 == 0x80 && 5u8 << 5u8 == 0xa0 && 6u8 << 5u8 == 0xc0 && 7u8
                << 5u8 == 0xe0) by (bit_vector);
        }
        match self {
            Major::Positive => 0x00,
            Major::Negative => 0x20,
            Major::Bytes => 0x40,
            Major::Text => 0x60,
            Major::Array => 0x80,
            Major::Mapping => 0xa0,
            Major::Tag => 0xc0,
            Major::Other => 0xe0,
        }
    }
}

/// Whether a header byte uses one of the reserved selectors 28 to 30.
pub open spec fn spec_sel_reserved(b: u8) -> bool {
    28 <= (b & 0x1f) <= 30
}

/// How many argument bytes follow a header byte with this selector.
pub open spec fn spec_extra_len(b: u8) -> nat {
    let sel = b & 0x1f;
    if sel == 24 {
        1
    } else if sel == 25 {
        2
    } else if sel == 26 {
        4
    } else if sel == 27 {
        8
    } else {
        0
    }
}

/// The total length in bytes of a header that starts with this byte.
pub open spec fn spec_header_len(b: u8) -> nat {
    1 + spec_extra_len(b)
}

/// The argument part of a header as decoded from the first byte alone:
/// the argument kind is known, but any trailing argument bytes are not
/// yet available.
#[derive(Debug, Copy, Clone, PartialEq, Eq, Structural)]
pub enum PartialArg {
    First(u8),
    Next1,
    Next2,
    Next4,
    Next8,
    Indef,
}

/// What the low five bits of a header byte say about its argument.
pub open spec fn spec_partial_arg_of(b: u8) -> Result<PartialArg, Error> {
    let sel = b & 0x1f;
    if sel <= 23 {
        Ok(PartialArg::First(sel))
    } else if sel == 24 {
        Ok(PartialArg::Next1)
    } else if sel == 25 {
        Ok(PartialArg::Next2)
    } else if sel == 26 {
        Ok(PartialArg::Next4)
    } else if sel == 27 {
        Ok(PartialArg::Next8)
    } else if sel == 31 {
        Ok(PartialArg::Indef)
    } else {
        Err(Error::ItemIllFormed)
    }
}

/// The selector value that encodes this argument kind.
pub open spec fn spec_partial_selector(p: PartialArg) -> u8 {
    match p {
        PartialArg::First(v) => v,
        PartialArg::Next1 => 24,
        PartialArg::Next2 => 25,
        PartialArg::Next4 => 26,
        PartialArg::Next8 => 27,
        PartialArg::Indef => 31,
    }
}

/// How many argument bytes this argument kind is followed by.
pub open spec fn spec_partial_len(p: PartialArg) -> nat {
    match p {
        PartialArg::Next1 => 1,
        PartialArg::Next2 => 2,
        PartialArg::Next4 => 4,
        PartialArg::Next8 => 8,
        _ => 0,
    }
}

impl PartialArg {
    /// Decodes the argument kind from the low five bits of a header byte.
    /// The reserved selectors 28 to 30 are an error whatever the rest of
    /// the byte holds.
    pub fn from_byte(b: u8) -> (r: Result<PartialArg, Error>)
        ensures
            r == spec_partial_arg_of(b),
    {
        let sel = b & 0x1f;
        if sel <= 23 {
            Ok(PartialArg::First(sel))
        } else if sel == 24 {
            Ok(PartialArg::Next1)
        } else if sel == 25 {
            Ok(PartialArg::Next2)
        } else if sel == 26 {
            Ok(PartialArg::Next4)
        } else if sel == 27 {
            Ok(PartialArg::Next8)
        } else if sel == 31 {
            Ok(PartialArg::Indef)
        } else {
            Err(Error::ItemIllFormed)
        }
    }

    /// The selector value that encodes this argument kind.
    pub fn as_byte(self) -> (b: u8)
        ensures
            b == spec_partial_selector(self),
    {
        match self {
            PartialArg::First(b) => b,
            PartialArg::Next1 => 24,
            PartialArg::Next2 => 25,
            PartialArg::Next4 => 26,
            PartialArg::Next8 => 27,
            PartialArg::Indef => 31,
        }
    }

    /// How many argument bytes this argument kind is followed by.
    pub fn len(self) -> (n: usize)
        ensures
            n == spec_partial_len(self),
    {
        match self {
            PartialArg::Next1 => 1,
            PartialArg::Next2 => 2,
            PartialArg::Next4 => 4,
            PartialArg::Next8 => 8,
            _ => 0,
        }
    }
}

/// The argument of a fully decoded header: a small inline value, the raw
/// big-endian bytes of a wider value, or the indefinite-length marker.
/// Wider arguments keep their wire bytes, so a header re-encodes to
/// exactly the bytes it was decoded from, minimal or not.
#[derive(Debug, Copy, Clone, PartialEq, Eq)]
pub enum Arg {
    First(u8),
    Next1([u8; 1]),
    Next2([u8; 2]),
    Next4([u8; 4]),
    Next8([u8; 8]),
    Indef,
}

/// The value of a byte string read as a big-endian unsigned integer.
pub open spec fn be_value(s: Seq<u8>) -> nat
    decreases s.len(),
{
    if s.len() == 0 {
        0
    } else {
        be_value(s.drop_last()) * 256 + (s.last() as nat)
    }
}

/// 256 to the n-th power: the number of byte strings of length n.
pub open spec fn pow256(n: nat) -> nat
    decreases n,
{
    if n == 0 {
        1
    } else {
        256 * pow256((n - 1) as nat)
    }
}

pub proof fn lemma_pow256_mono(a: nat, b: nat)
    requires
        a <= b,
    ensures
        1 <= pow256(a) <= pow256(b),
    decreases b,
{
    if b > 0 {
        if a < b {
            lemma_pow256_mono(a, (b - 1) as nat);
        } else {
            lemma_pow256_mono((a - 1) as nat, (b - 1) as nat);
        }
    }
}

/// The byte counts this codec uses, as powers of 256.
pub proof fn lemma_pow256_values()
    ensures
        pow256(1) == 0x100,
        pow256(2) == 0x1_0000,
        pow256(4) == 0x1_0000_0000,
        pow256(8) == 0x1_0000_0000_0000_0000,
{
    assert(pow256(0) == 1);
    assert(pow256(1) == 0x100);
    assert(pow256(2) == 0x1_0000);
    assert(pow256(3) == 0x100_0000);
    assert(pow256(4) == 0x1_0000_0000);
    assert(pow256(5) == 0x100_0000_0000);
    assert(pow256(6) == 0x1_0000_0000_0000);
    assert(pow256(7) == 0x100_0000_0000_0000);
    assert(pow256(8) == 0x1_0000_0000_0000_0000);
}

/// A big-endian value fits in as many bytes as spell it.
pub proof fn lemma_be_value_bound(s: Seq<u8>)
    ensures
        be_value(s) < pow256(s.len()),
    decreases s.len(),
{
    if s.len() > 0 {
        lemma_be_value_bound(s.drop_last());
    }
}

/// The numeric argument carried by an argument form, if it carries one.
pub open spec fn arg_value(a: Arg) -> Option<nat> {
    match a {
        Arg::First(v) => Some(v as nat),
        Arg::Next1(b) => Some(be_value(b@)),
        Arg::Next2(b) => Some(be_value(b@)),
        Arg::Next4(b) => Some(be_value(b@)),
        Arg::Next8(b) => Some(be_value(b@)),
        Arg::Indef => None,
    }
}

/// The trailing argument bytes of an argument form.
pub open spec fn arg_payload(a: Arg) -> Seq<u8> {
    match a {
        Arg::First(_) => Seq::empty(),
        Arg::Next1(b) => b@,
        Arg::Next2(b) => b@,
        Arg::Next4(b) => b@,
        Arg::Next8(b) => b@,
        Arg::Indef => Seq::empty(),
    }
}

/// The argument kind of an argument form.
pub open spec fn spec_arg_partial(a: Arg) -> PartialArg {
    match a {
        Arg::First(v) => PartialArg::First(v),
        Arg::Next1(_) => PartialArg::Next1,
        Arg::Next2(_) => PartialArg::Next2,
        Arg::Next4(_) => PartialArg::Next4,
        Arg::Next8(_) => PartialArg::Next8,
        Arg::Indef => PartialArg::Indef,
    }
}

/// An argument as decoding produces it: an inline argument never
/// exceeds 23, so it re-encodes to the selector it was decoded from.
pub open spec fn arg_wf(a: Arg) -> bool {
    match a {
        Arg::First(v) => v <= 23,
        _ => true,
    }
}

/// The array holding the first `i` bytes of `s` (and zeros above).
pub open spec fn spec_array_from_seq_rec<const N: usize>(s: Seq<u8>, i: nat) -> [u8; N]
    decreases i,
{
    if i == 0 {
        vstd::array::spec_array_fill_for_copy_type::<u8, N>(0u8)
    } else {
        vstd::array::spec_array_update(
            spec_array_from_seq_rec::<N>(s, (i - 1) as nat),
            i - 1,
            s[i - 1],
        )
    }
}

/// The array holding the first `N` bytes of `s`.
pub open spec fn spec_array_from_seq<const N: usize>(s: Seq<u8>) -> [u8; N] {
    spec_array_from_seq_rec::<N>(s, N as nat)
}

proof fn lemma_array_from_seq_rec<const N: usize>(s: Seq<u8>, i: nat)
    requires
        i <= N,
        s.len() >= i,
    ensures
        forall|j: int| 0 <= j < i ==> spec_array_from_seq_rec::<N>(s, i)@[j] == s[j],
    decreases i,
{
    if i > 0 {
        lemma_array_from_seq_rec::<N>(s, (i - 1) as nat);
    }
}

pub proof fn lemma_array_from_seq<const N: usize>(s: Seq<u8>)
    requires
        s.len() == N,
    ensures
        spec_array_from_seq::<N>(s)@ == s,
{
    lemma_array_from_seq_rec::<N>(s, N as nat);
    assert(spec_array_from_seq::<N>(s)@ =~= s);
}

/// Completing an argument from its kind and the bytes that follow the
/// header byte: `s` is the whole header, byte 0 included.
pub open spec fn spec_arg_from_partial(partial: PartialArg, s: Seq<u8>) -> Result<Arg, Error> {
    match partial {
        PartialArg::First(v) => Ok(Arg::First(v)),
        PartialArg::Indef => Ok(Arg::Indef),
        PartialArg::Next1 => if s.len() > 1 {
            Ok(Arg::Next1(spec_array_from_seq::<1>(s.subrange(1, 2))))
        } else {
            Err(Error::Eof)
        },
        PartialArg::Next2 => if s.len() > 2 {
            Ok(Arg::Next2(spec_array_from_seq::<2>(s.subrange(1, 3))))
        } else {
            Err(Error::Eof)
        },
        PartialArg::Next4 => if s.len() > 4 {
            Ok(Arg::Next4(spec_array_from_seq::<4>(s.subrange(1, 5))))
        } else {
            Err(Error::Eof)
        },
        PartialArg::Next8 => if s.len() > 8 {
            Ok(Arg::Next8(spec_array_from_seq::<8>(s.subrange(1, 9))))
        } else {
            Err(Error::Eof)
        },
    }
}

/// Reads the `N` bytes after the first byte of `s` into an array.
fn read_array<const N: usize>(s: &[u8]) -> (r: Result<[u8; N], Error>)
    ensures
        match r {
            Ok(a) => s@.len() > N && a@ == s@.subrange(1, N as int + 1),
            Err(e) => s@.len() <= N && e == Error::Eof,
        },
{
    if s.len() <= N {
        return Err(Error::Eof);
    }
    let mut a = vstd::array::array_fill_for_copy_types::<u8, N>(0u8);
    let mut i: usize = 0;
    while i < N
        invariant
            i <= N,
            N < s@.len(),
            forall|j: int| 0 <= j < i ==> a@[j] == s@[j + 1],
        decreases N - i,
    {
        a.set(i, *slice_index_get(s, i + 1));
        i += 1;
    }
    proof {
        assert(a@ =~= s@.subrange(1, N as int + 1));
    }
    Ok(a)
}

impl Arg {
    /// Decodes the argument from a whole header: the first byte gives the
    /// kind, the following bytes complete it.
    pub fn from_slice(s: &[u8]) -> (r: Result<Arg, Error>)
        ensures
            r == (match spec_partial_arg_of_first(s@) {
                Ok(p) => spec_arg_from_partial(p, s@),
                Err(e) => Err::<Arg, Error>(e),
            }),
    {
        if s.len() == 0 {
            return Err(Error::Eof);
        }
        let b = *slice_index_get(s, 0);
        match PartialArg::from_byte(b) {
            Ok(p) => Arg::from_partial(p, s),
            Err(e) => Err(e),
        }
    }

    /// Completes an argument whose kind is already known; `s` is the whole
    /// header, byte 0 included, as it lies in the stream.
    pub fn from_partial(partial: PartialArg, s: &[u8]) -> (r: Result<Arg, Error>)
        ensures
            r == spec_arg_from_partial(partial, s@),
    {
        match partial {
            PartialArg::First(v) => Ok(Arg::First(v)),
            PartialArg::Indef => Ok(Arg::Indef),
            PartialArg::Next1 => match read_array::<1>(s) {
                Ok(a) => {
                    proof {
                        lemma_array_from_seq::<1>(s@.subrange(1, 2));
                        assert(a =~= spec_array_from_seq::<1>(s@.subrange(1, 2)));
                    }
                    Ok(Arg::Next1(a))
                },
                Err(e) => Err(e),
            },
            PartialArg::Next2 => match read_array::<2>(s) {
                Ok(a) => {
                    proof {
                        lemma_array_from_seq::<2>(s@.subrange(1, 3));
                        assert(a =~= spec_array_from_seq::<2>(s@.subrange(1, 3)));
                    }
                    Ok(Arg::Next2(a))
                },
                Err(e) => Err(e),
            },
            PartialArg::Next4 => match read_array::<4>(s) {
                Ok(a) => {
                    proof {
                        lemma_array_from_seq::<4>(s@.subrange(1, 5));
                        assert(a =~= spec_array_from_seq::<4>(s@.subrange(1, 5)));
                    }
                    Ok(Arg::Next4(a))
                },
                Err(e) => Err(e),
            },
            PartialArg::Next8 => match read_array::<8>(s) {
                Ok(a) => {
                    proof {
                        lemma_array_from_seq::<8>(s@.subrange(1, 9));
                        assert(a =~= spec_array_from_seq::<8>(s@.subrange(1, 9)));
                    }
                    Ok(Arg::Next8(a))
                },
                Err(e) => Err(e),
            },
        }
    }

    /// The selector value that encodes this argument's kind.
    pub fn mask(&self) -> (b: u8)
        ensures
            b == spec_partial_selector(spec_arg_partial(*self)),
    {
        PartialArg::from(*self).as_byte()
    }

    /// The trailing argument bytes, as they lie in the stream.
    pub fn as_slice(&self) -> (r: &[u8])
        ensures
            r@ == arg_payload(*self),
    {
        match self {
            Arg::First(_) | Arg::Indef => {
                let empty: &[u8; 0] = &[];
                let r = empty.as_slice();
                proof { assert(r@ =~= arg_payload(*self)); }
                r
            },
            Arg::Next1(v) => v.as_slice(),
            Arg::Next2(v) => v.as_slice(),
            Arg::Next4(v) => v.as_slice(),
            Arg::Next8(v) => v.as_slice(),
        }
    }

    /// The argument's numeric value; the indefinite-length marker carries
    /// none and is an ill-formed item where a number is required.
    pub fn as_integer(&self) -> (r: Result<u64, Error>)
        ensures
            match r {
                Ok(v) => arg_value(*self) == Some(v as nat),
                Err(e) => *self == Arg::Indef && e == Error::ItemIllFormed,
            },
    {
        match self {
            Arg::First(b) => Ok(*b as u64),
            Arg::Next1(v) => Ok(be_to_u64(v.as_slice())),
            Arg::Next2(v) => Ok(be_to_u64(v.as_slice())),
            Arg::Next4(v) => Ok(be_to_u64(v.as_slice())),
            Arg::Next8(v) => Ok(be_to_u64(v.as_slice())),
            Arg::Indef => Err(Error::ItemIllFormed),
        }
    }

    /// Encodes a value in the smallest argument form that represents it
    /// exactly: inline up to 23, else the narrowest of the 1, 2, 4 and
    /// 8-byte big-endian forms.
    pub fn from_integer(v: u64) -> (a: Arg)
        ensures
            arg_value(a) == Some(v as nat),
            arg_wf(a),
            v <= 23 ==> (a matches Arg::First(_)),
            24 <= v <= 0xff ==> (a matches Arg::Next1(_)),
            0xff < v <= 0xffff ==> (a matches Arg::Next2(_)),
            0xffff < v <= 0xffff_ffff ==> (a matches Arg::Next4(_)),
            0xffff_ffff < v ==> (a matches Arg::Next8(_)),
    {
        proof {
            assert(((v >> 0u64) as u8) == (v as u8)) by (bit_vector);
        }
        if v <= 23 {
            Arg::First(v as u8)
        } else if v <= 0xff {
            let mut b = vstd::array::array_fill_for_copy_types::<u8, 1>(0u8);
            b.set(0, v as u8);
            proof {
                lemma_pow256_values();
                lemma_be_concrete(b@, v);
            }
            Arg::Next1(b)
        } else if v <= 0xffff {
            let mut b = vstd::array::array_fill_for_copy_types::<u8, 2>(0u8);
            b.set(0, (v >> 8) as u8);
            b.set(1, v as u8);
            proof {
                lemma_pow256_values();
                lemma_be_concrete(b@, v);
            }
            Arg::Next2(b)
        } else if v <= 0xffff_ffff {
            let mut b = vstd::array::array_fill_for_copy_types::<u8, 4>(0u8);
            b.set(0, (v >> 24) as u8);
            b.set(1, (v >> 16) as u8);
            b.set(2, (v >> 8) as u8);
            b.set(3, v as u8);
            proof {
                lemma_pow256_values();
                lemma_be_concrete(b@, v);
            }
            Arg::Next4(b)
        } else {
            let mut b = vstd::array::array_fill_for_copy_types::<u8, 8>(0u8);
            b.set(0, (v >> 56) as u8);
            b.set(1, (v >> 48) as u8);
            b.set(2, (v >> 40) as u8);
            b.set(3, (v >> 32) as u8);
            b.set(4, (v >> 24) as u8);
            b.set(5, (v >> 16) as u8);
            b.set(6, (v >> 8) as u8);
            b.set(7, v as u8);
            proof {
                lemma_pow256_values();
                lemma_be_concrete(b@, v);
            }
            Arg::Next8(b)
        }
    }

    /// The length of the aggregate this argument announces: `None` for an
    /// indefinite-length item, else the argument's value, which must fit
    /// the machine's address range.
    pub fn sequence_length(&self) -> (r: Result<Option<usize>, Error>)
        ensures
            match r {
                Ok(opt) => match opt {
                    None => *self == Arg::Indef,
                    Some(n) => arg_value(*self) == Some(n as nat),
                },
                Err(e) => e == Error::NumberOutOfRange && (match arg_value(*self) {
                    Some(v) => v > usize::MAX,
                    None => false,
                }),
            },
    {
        match self {
            Arg::Indef => Ok(None),
            _ => match self.as_integer() {
                Ok(v) => {
                    if v <= usize::MAX as u64 {
                        Ok(Some(v as usize))
                    } else {
                        Err(Error::NumberOutOfRange)
                    }
                },
                Err(e) => Err(e),
            },
        }
    }

    /// How many argument bytes follow the header byte for this argument.
    pub fn len(&self) -> (n: usize)
        ensures
            n == spec_partial_len(spec_arg_partial(*self)),
    {
        PartialArg::from(*self).len()
    }
}

/// The argument kind read from the first byte of a header.
pub open spec fn spec_partial_arg_of_first(s: Seq<u8>) -> Result<PartialArg, Error> {
    if s.len() == 0 {
        Err(Error::Eof)
    } else {
        spec_partial_arg_of(s[0])
    }
}

/// Reads a big-endian unsigned value from at most eight bytes.
fn be_to_u64(s: &[u8]) -> (v: u64)
    requires
        s@.len() <= 8,
    ensures
        v as nat == be_value(s@),
{
    let mut v: u64 = 0;
    let mut i: usize = 0;
    while i < s.len()
        invariant
            i <= s@.len() <= 8,
            v as nat == be_value(s@.take(i as int)),
        decreases s@.len() - i,
    {
        proof {
            let t = s@.take(i as int + 1);
            assert(t.drop_last() =~= s@.take(i as int));
            lemma_be_value_bound(t);
            lemma_pow256_mono(t.len(), 8);
            lemma_pow256_values();
        }
        v = v * 256 + (*slice_index_get(s, i)) as u64;
        i += 1;
    }
    proof {
        assert(s@.take(s@.len() as int) =~= s@);
    }
    v
}

/// The big-endian bytes written by `from_integer` spell the value back.
proof fn lemma_be_concrete(s: Seq<u8>, v: u64)
    requires
        1 <= s.len() <= 8,
        forall|j: int| 0 <= j < s.len() ==> s[j] == ((v >> (((s.len() - 1 - j) * 8) as u64)) as u8),
        v < pow256(s.len()),
    ensures
        be_value(s) == v,
    decreases s.len(),
{
    if s.len() == 1 {
        assert(s[0] == ((v >> 0u64) as u8));
        lemma_pow256_values();
        assert(v < 256 ==> ((v >> 0u64) as u8) as u64 == v) by (bit_vector);
        assert(s.drop_last().len() == 0);
        assert(be_value(s) == be_value(s.drop_last()) * 256 + (s.last() as nat));
    } else {
        let n = s.len();
        let hi = s.drop_last();
        let w = v >> 8u64;
        assert(pow256(n) == 256 * pow256((n - 1) as nat));
        assert(v >> 8u64 == v / 256) by (bit_vector);
        assert(w < pow256((n - 1) as nat)) by (nonlinear_arith)
            requires
                w == v / 256,
                v < 256 * pow256((n - 1) as nat),
        ;
        assert forall|j: int| 0 <= j < hi.len() implies hi[j] == ((w >> (((hi.len() - 1 - j)
            * 8) as u64)) as u8) by {
            assert(hi[j] == s[j]);
            let sh2: u64 = ((n - 2 - j) * 8) as u64;
            assert(((n - 1 - j) * 8) as u64 == sh2 + 8);
            assert(sh2 <= 48 ==> ((v >> (sh2 + 8)) as u8) == (((v >> 8u64) >> sh2) as u8))
                by (bit_vector);
        }
        lemma_be_concrete(hi, w);
        assert(s.last() == ((v >> 0u64) as u8));
        assert(((v >> 0u64) as u8) as u64 == v % 256) by (bit_vector);
        assert(be_value(s) == be_value(hi) * 256 + s.last());
        assert((v / 256) * 256 + (v % 256) == v) by (nonlinear_arith);
    }
}

/// A fully decoded header: a major type and an argument.
#[derive(Debug, Copy, Clone, PartialEq, Eq)]
pub struct Header(pub Major, pub Arg);

/// A header whose inline argument re-encodes to the selector it was
/// decoded from.
pub open spec fn header_wf(h: Header) -> bool {
    arg_wf(h.1)
}

/// The first byte of a header's encoding: the major type in the top three
/// bits, the argument selector in the low five.
pub open spec fn spec_header_first_byte(h: Header) -> u8 {
    (spec_major_code(h.0) << 5u8) | spec_partial_selector(spec_arg_partial(h.1))
}

/// The bytes that encode a header.
pub open spec fn spec_header_bytes(h: Header) -> Seq<u8> {
    seq![spec_header_first_byte(h)] + arg_payload(h.1)
}

/// Parsing a header from the front of a byte stream: the first byte gives
/// the major type and the argument kind (reserved selectors fail), the
/// argument bytes that the kind announces complete it (missing bytes fail).
pub open spec fn spec_parse_header(s: Seq<u8>) -> Result<Header, Error> {
    if s.len() == 0 {
        Err(Error::Eof)
    } else {
        match spec_partial_arg_of(s[0]) {
            Err(e) => Err(e),
            Ok(p) => match spec_arg_from_partial(p, s) {
                Err(e) => Err(e),
                Ok(a) => Ok(Header(spec_major_of(s[0]), a)),
            },
        }
    }
}

/// How many bytes of `s` a successful header parse consumes.
pub open spec fn spec_parsed_len(s: Seq<u8>) -> nat {
    if s.len() == 0 {
        0
    } else {
        spec_header_len(s[0])
    }
}

proof fn lemma_major_code_of(b: u8)
    ensures
        spec_major_code(spec_major_of(b)) == b >> 5,
{
    assert(b >> 5 <= 7) by (bit_vector);
}

/// A parsed header is well formed, and re-encodes to exactly the bytes it
/// was parsed from.
pub proof fn lemma_parse_header_ok(s: Seq<u8>, h: Header)
    requires
        spec_parse_header(s) == Ok::<Header, Error>(h),
    ensures
        header_wf(h),
        spec_parsed_len(s) <= s.len(),
        spec_header_bytes(h) == s.take(spec_parsed_len(s) as int),
{
    let b = s[0];
    lemma_major_code_of(b);
    let sel = b & 0x1f;
    assert(b & 0x1f <= 31) by (bit_vector);
    assert(((b >> 5) << 5) | (b & 0x1f) == b) by (bit_vector);
    match spec_partial_arg_of(b) {
        Ok(p) => {
            match p {
                PartialArg::First(_) | PartialArg::Indef => {
                    assert(spec_header_bytes(h) =~= s.take(1));
                },
                PartialArg::Next1 => {
                    lemma_array_from_seq::<1>(s.subrange(1, 2));
                    assert(spec_header_bytes(h) =~= s.take(2));
                },
                PartialArg::Next2 => {
                    lemma_array_from_seq::<2>(s.subrange(1, 3));
                    assert(spec_header_bytes(h) =~= s.take(3));
                },
                PartialArg::Next4 => {
                    lemma_array_from_seq::<4>(s.subrange(1, 5));
                    assert(spec_header_bytes(h) =~= s.take(5));
                },
                PartialArg::Next8 => {
                    lemma_array_from_seq::<8>(s.subrange(1, 9));
                    assert(spec_header_bytes(h) =~= s.take(9));
                },
            }
        },
        Err(_) => {},
    }
}

/// Law: a well-formed header re-encodes to bytes that parse back to the
/// very same header, whatever follows them; in particular the decoder
/// never rejects a well-formed non-minimal encoding.
pub proof fn lemma_header_round_trip(h: Header, rest: Seq<u8>)
    requires
        header_wf(h),
    ensures
        spec_parse_header(spec_header_bytes(h) + rest) == Ok::<Header, Error>(h),
{
    let s = spec_header_bytes(h) + rest;
    let code = spec_major_code(h.0);
    let sel = spec_partial_selector(spec_arg_partial(h.1));
    let b = s[0];
    assert(b == (code << 5u8) | sel);
    assert(code <= 7);
    assert(sel <= 31) by {
        match h.1 {
            Arg::First(v) => assert(v <= 23),
            _ => {},
        }
    }
    assert(code <= 7 && sel <= 31 ==> (((code << 5u8) | sel) >> 5 == code && ((code << 5u8)
        | sel) & 0x1f == sel)) by (bit_vector);
    assert(spec_major_of(b) == h.0);
    match h.1 {
        Arg::First(v) => {
            assert(spec_parse_header(s) == Ok::<Header, Error>(h));
        },
        Arg::Indef => {
            assert(spec_parse_header(s) == Ok::<Header, Error>(h));
        },
        Arg::Next1(a) => {
            assert(s.subrange(1, 2) =~= a@);
            lemma_array_from_seq::<1>(a@);
            assert(spec_array_from_seq::<1>(s.subrange(1, 2)) =~= a);
        },
        Arg::Next2(a) => {
            assert(s.subrange(1, 3) =~= a@);
            lemma_array_from_seq::<2>(a@);
            assert(spec_array_from_seq::<2>(s.subrange(1, 3)) =~= a);
        },
        Arg::Next4(a) => {
            assert(s.subrange(1, 5) =~= a@);
            lemma_array_from_seq::<4>(a@);
            assert(spec_array_from_seq::<4>(s.subrange(1, 5)) =~= a);
        },
        Arg::Next8(a) => {
            assert(s.subrange(1, 9) =~= a@);
            lemma_array_from_seq::<8>(a@);
            assert(spec_array_from_seq::<8>(s.subrange(1, 9)) =~= a);
        },
    }
}

/// Law: a header byte with a reserved argument selector fails as an
/// ill-formed item, whatever its major type and whatever follows it.
pub proof fn lemma_reserved_selector(s: Seq<u8>)
    requires
        s.len() > 0,
        spec_sel_reserved(s[0]),
    ensures
        spec_parse_header(s) == Err::<Header, Error>(Error::ItemIllFormed),
{
}

/// Law: a header truncated anywhere before its last byte fails with
/// end-of-input, never with a value.
pub proof fn lemma_truncated_header(h: Header, n: int)
    requires
        header_wf(h),
        0 <= n < spec_header_bytes(h).len(),
    ensures
        spec_parse_header(spec_header_bytes(h).take(n)) == Err::<Header, Error>(Error::Eof),
{
    let s = spec_header_bytes(h).take(n);
    if n > 0 {
        let code = spec_major_code(h.0);
        let sel = spec_partial_selector(spec_arg_partial(h.1));
        assert(sel <= 31 && !(28 <= sel <= 30)) by {
            match h.1 {
                Arg::First(v) => assert(v <= 23),
                _ => {},
            }
        }
        assert(code <= 7);
        assert(code <= 7 && sel <= 31 ==> ((code << 5u8) | sel) & 0x1f == sel) by (bit_vector);
        assert(s[0] == (code << 5u8) | sel);
    }
}

impl Header {
    /// The break marker that terminates indefinite-length aggregates.
    pub open spec fn spec_break() -> Header {
        Header(Major::Other, Arg::Indef)
    }

    /// The break marker that terminates indefinite-length aggregates.
    pub fn break_marker() -> (h: Header)
        ensures
            h == Header::spec_break(),
    {
        Header(Major::Other, Arg::Indef)
    }

    /// Whether this header is the break marker.
    pub fn is_break(&self) -> (r: bool)
        ensures
            r == (*self == Header::spec_break()),
    {
        match (self.0, self.1) {
            (Major::Other, Arg::Indef) => true,
            _ => false,
        }
    }

    /// Decodes a header from the front of a byte slice.
    pub fn from_slice(s: &[u8]) -> (r: Result<Header, Error>)
        ensures
            r == spec_parse_header(s@),
    {
        if s.len() == 0 {
            return Err(Error::Eof);
        }
        let b = *slice_index_get(s, 0);
        let m = Major::from_byte(b);
        match Arg::from_slice(s) {
            Ok(a) => Ok(Header(m, a)),
            Err(e) => Err(e),
        }
    }

    /// Completes a header whose first byte is already decoded; `s` is the
    /// whole header as it lies in the stream, first byte included.
    pub fn from_partial(partial: PartialHeader, s: &[u8]) -> (r: Result<Header, Error>)
        ensures
            r == (match spec_arg_from_partial(partial.1, s@) {
                Ok(a) => Ok::<Header, Error>(Header(partial.0, a)),
                Err(e) => Err::<Header, Error>(e),
            }),
    {
        match Arg::from_partial(partial.1, s) {
            Ok(a) => Ok(Header(partial.0, a)),
            Err(e) => Err(e),
        }
    }

    /// Encodes the header back to its wire bytes.
    pub fn as_vec(&self) -> (r: Vec<u8>)
        ensures
            r@ == spec_header_bytes(*self),
    {
        let mut r: Vec<u8> = Vec::new();
        r.push(PartialHeader::from(*self).as_byte());
        let s = self.1.as_slice();
        let mut i: usize = 0;
        while i < s.len()
            invariant
                i <= s@.len(),
                s@ == arg_payload(self.1),
                r@ == seq![spec_header_first_byte(*self)] + s@.take(i as int),
            decreases s@.len() - i,
        {
            r.push(*slice_index_get(s, i));
            proof {
                assert(seq![spec_header_first_byte(*self)] + s@.take(i as int) + seq![s@[i as int]]
                    =~= seq![spec_header_first_byte(*self)] + s@.take(i as int + 1));
            }
            i += 1;
        }
        proof {
            assert(s@.take(s@.len() as int) =~= s@);
        }
        r
    }

    /// The total length in bytes of this header's encoding.
    pub fn len(&self) -> (n: usize)
        ensures
            n == 1 + spec_partial_len(spec_arg_partial(self.1)),
    {
        1 + self.1.len()
    }
}

/// A header decoded from its first byte alone: the major type and the
/// argument kind, before the argument bytes are available.
#[derive(Debug, Copy, Clone, PartialEq, Eq, Structural)]
pub struct PartialHeader(pub Major, pub PartialArg);

impl PartialHeader {
    /// Decodes the major type and argument kind from a header byte.
    pub fn from_byte(b: u8) -> (r: Result<PartialHeader, Error>)
        ensures
            r == (match spec_partial_arg_of(b) {
                Ok(p) => Ok::<PartialHeader, Error>(PartialHeader(spec_major_of(b), p)),
                Err(e) => Err::<PartialHeader, Error>(e),
            }),
    {
        let m = Major::from_byte(b);
        match PartialArg::from_byte(b) {
            Ok(p) => Ok(PartialHeader(m, p)),
            Err(e) => Err(e),
        }
    }

    /// The byte that encodes this major type and argument kind.
    pub fn as_byte(self) -> (b: u8)
        ensures
            b == (spec_major_code(self.0) << 5u8) | spec_partial_selector(self.1),
    {
        self.0.as_byte() | self.1.as_byte()
    }

    /// The total length in bytes of a header with this argument kind.
    pub fn len(self) -> (n: usize)
        ensures
            n == 1 + spec_partial_len(self.1),
    {
        1 + self.1.len()
    }
}

impl From<Header> for PartialHeader {
    /// Forgets a header's argument bytes, keeping its shape.
    fn from(value: Header) -> (r: Self) {
        PartialHeader(value.0, PartialArg::from(value.1))
    }
}

impl vstd::std_specs::convert::FromSpecImpl<Header> for PartialHeader {
    open spec fn obeys_from_spec() -> bool {
        true
    }

    open spec fn from_spec(h: Header) -> Self {
        PartialHeader(h.0, spec_arg_partial(h.1))
    }
}

impl From<Arg> for PartialArg {
    /// Forgets an argument's bytes, keeping its kind.
    fn from(value: Arg) -> (r: Self) {
        match value {
            Arg::First(b) => PartialArg::First(b),
            Arg::Next1(_) => PartialArg::Next1,
            Arg::Next2(_) => PartialArg::Next2,
            Arg::Next4(_) => PartialArg::Next4,
            Arg::Next8(_) => PartialArg::Next8,
            Arg::Indef => PartialArg::Indef,
        }
    }
}

impl vstd::std_specs::convert::FromSpecImpl<Arg> for PartialArg {
    open spec fn obeys_from_spec() -> bool {
        true
    }

    open spec fn from_spec(a: Arg) -> Self {
        spec_arg_partial(a)
    }
}

} // verus!
