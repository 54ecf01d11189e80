//! Simple values: the restricted small-integer sub-range of the last major
//! type, which encodes the booleans (20 false, 21 true), null (22) and
//! undefined (23).

use vstd::prelude::*;

use crate::error::Error;
use crate::header::{arg_value, lemma_be_value_bound, lemma_pow256_values, Arg, Header, Major};

verus! {

/// A simple value: any byte except 24 to 31, which are never valid in this
/// position.
#[derive(Debug, Copy, Clone, PartialEq, Eq, Structural)]
pub struct Simple(pub u8);

/// The simple value a header carries, if it carries one: the last major
/// type with an inline or one-byte argument outside the reserved 24 to 31
/// range.
pub open spec fn spec_simple_value(h: Header) -> Option<u8> {
    if h.0 == Major::Other && (h.1 matches Arg::First(_) || h.1 matches Arg::Next1(_)) {
        match arg_value(h.1) {
            Some(v) => if v < 24 || v > 31 {
                Some(v as u8)
            } else {
                None
            },
            None => None,
        }
    } else {
        None
    }
}

impl Simple {
    /// Accepts the bytes that may stand as a simple value.
    pub fn from_byte(value: u8) -> (r: Result<Simple, Error>)
        ensures
            match r {
                Ok(s) => (value < 24 || value > 31) && s.0 == value,
                Err(e) => 24 <= value <= 31 && e == Error::ExpectedSimple,
            },
    {
        if 24 <= value && value <= 31 {
            Err(Error::ExpectedSimple)
        } else {
            Ok(Simple(value))
        }
    }

    /// The value itself.
    pub fn as_byte(self) -> (b: u8)
        ensures
            b == self.0,
    {
        self.0
    }

    /// Reads a simple value out of a header; a header of any other shape
    /// fails.
    pub fn from_header(h: Header) -> (r: Result<Simple, Error>)
        ensures
            match r {
                Ok(s) => spec_simple_value(h) == Some(s.0),
                Err(e) => spec_simple_value(h) is None && e == Error::ExpectedSimple,
            },
    {
        let fits = match (h.0, h.1) {
            (Major::Other, Arg::First(_)) => true,
            (Major::Other, Arg::Next1(_)) => true,
            _ => false,
        };
        if !fits {
            return Err(Error::ExpectedSimple);
        }
        proof {
            lemma_pow256_values();
            match h.1 {
                Arg::Next1(b) => lemma_be_value_bound(b@),
                _ => {},
            }
        }
        match h.1.as_integer() {
            Ok(v) => Simple::from_byte(v as u8),
            Err(e) => Err(Error::ExpectedSimple),
        }
    }
}

} // verus!
