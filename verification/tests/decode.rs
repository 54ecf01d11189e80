use cborde::de::byteseq::ByteSeqAccess;
use cborde::de::{Deserializer, DeserializerConfig, Float, Shape};
use cborde::error::{Category, Error};
use cborde::header::{Arg, Header, Major};
use cborde::io::{ByteStream, Reference};
use cborde::scratch::{FixedScratch, NullScratch, Scratch};

fn hx(s: &str) -> Vec<u8> {
    let digits: Vec<u8> = s
        .bytes()
        .map(|b| match b {
            b'0'..=b'9' => b - b'0',
            b'a'..=b'f' => b - b'a' + 10,
            b'A'..=b'F' => b - b'A' + 10,
            _ => panic!("not a hex digit"),
        })
        .collect();
    digits.chunks(2).map(|p| (p[0] << 4) | p[1]).collect()
}

fn slice_de(input: &[u8]) -> Deserializer<cborde::io::SliceReader<'_>, NullScratch> {
    Deserializer::from_slice(input, NullScratch::new(), DeserializerConfig::default())
}

#[test]
fn unsigned_vectors() {
    assert_eq!(slice_de(&hx("00")).deserialize_u8(), Ok(0));
    assert_eq!(slice_de(&hx("01")).deserialize_u8(), Ok(1));
    assert_eq!(slice_de(&hx("0a")).deserialize_u8(), Ok(10));
    assert_eq!(slice_de(&hx("17")).deserialize_u8(), Ok(23));
    assert_eq!(slice_de(&hx("1818")).deserialize_u8(), Ok(24));
    assert_eq!(slice_de(&hx("1819")).deserialize_u8(), Ok(25));
    assert_eq!(slice_de(&hx("1864")).deserialize_u8(), Ok(100));
    assert_eq!(slice_de(&hx("1903e8")).deserialize_u16(), Ok(1000));
    assert_eq!(slice_de(&hx("1a000f4240")).deserialize_u32(), Ok(1_000_000));
    assert_eq!(
        slice_de(&hx("1b000000e8d4a51000")).deserialize_u64(),
        Ok(1_000_000_000_000)
    );
    assert_eq!(
        slice_de(&hx("1bffffffffffffffff")).deserialize_u64(),
        Ok(18_446_744_073_709_551_615)
    );
    assert_eq!(
        slice_de(&hx("1bffffffffffffffff")).deserialize_u128(),
        Ok(18_446_744_073_709_551_615)
    );
}

#[test]
fn signed_vectors() {
    assert_eq!(slice_de(&hx("20")).deserialize_i8(), Ok(-1));
    assert_eq!(slice_de(&hx("29")).deserialize_i8(), Ok(-10));
    assert_eq!(slice_de(&hx("3863")).deserialize_i8(), Ok(-100));
    assert_eq!(slice_de(&hx("3903e7")).deserialize_i16(), Ok(-1000));
    assert_eq!(
        slice_de(&hx("3bffffffffffffffff")).deserialize_i128(),
        Ok(-18_446_744_073_709_551_616)
    );
}

#[test]
fn non_minimal_encodings_accepted() {
    assert_eq!(slice_de(&hx("1800")).deserialize_u8(), Ok(0));
    assert_eq!(slice_de(&hx("190001")).deserialize_u8(), Ok(1));
    assert_eq!(slice_de(&hx("1a00000017")).deserialize_u8(), Ok(23));
}

#[test]
fn minimal_encoding_selected() {
    assert!(matches!(Arg::from_integer(0), Arg::First(0)));
    assert!(matches!(Arg::from_integer(23), Arg::First(23)));
    assert!(matches!(Arg::from_integer(24), Arg::Next1([24])));
    assert!(matches!(Arg::from_integer(255), Arg::Next1([0xff])));
    assert!(matches!(Arg::from_integer(256), Arg::Next2([1, 0])));
    assert!(matches!(Arg::from_integer(1000), Arg::Next2([0x03, 0xe8])));
    assert!(matches!(Arg::from_integer(65536), Arg::Next4(_)));
    assert!(matches!(Arg::from_integer(1 << 32), Arg::Next8(_)));
}

#[test]
fn header_encode_decode_round_trip() {
    let h = Header(Major::Positive, Arg::from_integer(1000));
    let bytes = h.as_vec();
    assert_eq!(bytes, hx("1903e8"));
    assert_eq!(Header::from_slice(&bytes), Ok(h));
    let h2 = Header(Major::Text, Arg::from_integer(4));
    assert_eq!(h2.as_vec(), hx("64"));
    assert_eq!(Header::from_slice(&h2.as_vec()), Ok(h2));
}

#[test]
fn bool_vectors() {
    assert_eq!(slice_de(&hx("f4")).deserialize_bool(), Ok(false));
    assert_eq!(slice_de(&hx("f5")).deserialize_bool(), Ok(true));
    assert_eq!(slice_de(&hx("01")).deserialize_bool(), Err(Error::ExpectedBool));
}

#[test]
fn float_vectors() {
    assert_eq!(slice_de(&hx("f90000")).deserialize_float(), Ok(Float::Half(0x0000)));
    match slice_de(&hx("f90000")).deserialize_float().unwrap() {
        Float::Half(bits) => assert_eq!(half::f16::from_bits(bits).to_f32(), 0.0),
        _ => panic!("wrong width"),
    }
    match slice_de(&hx("f9c400")).deserialize_float().unwrap() {
        Float::Half(bits) => assert_eq!(half::f16::from_bits(bits).to_f32(), -4.0),
        _ => panic!("wrong width"),
    }
    match slice_de(&hx("f97c00")).deserialize_float().unwrap() {
        Float::Half(bits) => assert_eq!(half::f16::from_bits(bits).to_f32(), f32::INFINITY),
        _ => panic!("wrong width"),
    }
    assert_eq!(
        slice_de(&hx("fa47c35000")).deserialize_float(),
        Ok(Float::Single(0x47c35000))
    );
    match slice_de(&hx("fa47c35000")).deserialize_float().unwrap() {
        Float::Single(bits) => assert_eq!(f32::from_bits(bits), 100_000.0),
        _ => panic!("wrong width"),
    }
    match slice_de(&hx("fb3ff199999999999a")).deserialize_float().unwrap() {
        Float::Double(bits) => assert_eq!(f64::from_bits(bits), 1.1),
        _ => panic!("wrong width"),
    }
    assert_eq!(slice_de(&hx("01")).deserialize_float(), Err(Error::ExpectedNumber));
}

#[test]
fn char_vector() {
    assert_eq!(slice_de(&hx("6161")).deserialize_char(), Ok('a'));
    assert_eq!(slice_de(&hx("626162")).deserialize_char(), Err(Error::ExpectedChar));
}

#[test]
fn reserved_selectors_ill_formed() {
    for major in 0u8..8 {
        for sel in 28u8..31 {
            let byte = (major << 5) | sel;
            let input = [byte, 0, 0, 0];
            let mut de = slice_de(&input);
            assert_eq!(de.deserialize_u64(), Err(Error::ItemIllFormed));
        }
    }
}

#[test]
fn truncation_fails_with_eof() {
    assert_eq!(slice_de(&hx("")).deserialize_u8(), Err(Error::Eof));
    assert_eq!(slice_de(&hx("19")).deserialize_u16(), Err(Error::Eof));
    assert_eq!(slice_de(&hx("1903")).deserialize_u16(), Err(Error::Eof));
    // truncated mid-payload
    let input = hx("6261");
    let mut de = slice_de(&input);
    assert_eq!(de.deserialize_str().unwrap_err(), Error::Eof);
}

#[test]
fn definite_string_zero_copy() {
    // a definite-length byte string decodes as a borrowed slice even with
    // the zero-capacity scratch
    let input = hx("4401020304");
    let mut de = slice_de(&input);
    match de.deserialize_bytes().unwrap() {
        Reference::Borrowed(s) => assert_eq!(s, &[1, 2, 3, 4]),
        Reference::Copied => panic!("should not copy"),
    }
}

#[test]
fn single_chunk_indefinite_zero_copy() {
    // indefinite byte string of exactly one non-empty chunk: zero-copy
    let input = hx("5f43010203ff");
    let mut de = slice_de(&input);
    match de.deserialize_bytes().unwrap() {
        Reference::Borrowed(s) => assert_eq!(s, &[1, 2, 3]),
        Reference::Copied => panic!("should not copy"),
    }
    // a zero-length chunk in front keeps the fast path
    let input = hx("5f4043010203ff");
    let mut de = slice_de(&input);
    match de.deserialize_bytes().unwrap() {
        Reference::Borrowed(s) => assert_eq!(s, &[1, 2, 3]),
        Reference::Copied => panic!("should not copy"),
    }
}

#[test]
fn multi_chunk_copies_into_scratch() {
    let input = hx("5f4101420203ff");
    let mut de = Deserializer::from_slice(&input, Vec::<u8>::new(), DeserializerConfig::default());
    match de.deserialize_bytes().unwrap() {
        Reference::Copied => assert_eq!(de.scratch().as_slice(), &[1u8, 2, 3]),
        Reference::Borrowed(_) => panic!("must copy"),
    }
    // the same input fails against the zero-capacity scratch
    let mut de = slice_de(&input);
    assert_eq!(de.deserialize_bytes().unwrap_err(), Error::ScratchBufferTooSmall);
    // and against a bounded scratch that is too small
    let mut de =
        Deserializer::from_slice(&input, FixedScratch::new(2), DeserializerConfig::default());
    assert_eq!(de.deserialize_bytes().unwrap_err(), Error::ScratchBufferTooSmall);
    // but fits a bounded scratch of exactly the payload size
    let mut de =
        Deserializer::from_slice(&input, FixedScratch::new(3), DeserializerConfig::default());
    assert!(matches!(de.deserialize_bytes(), Ok(Reference::Copied)));
}

#[test]
fn all_zero_length_chunks_give_empty_payload() {
    let input = hx("5f4040ff");
    let mut de = slice_de(&input);
    match de.deserialize_bytes().unwrap() {
        Reference::Copied => assert_eq!(de.scratch().as_slice(), &[] as &[u8]),
        Reference::Borrowed(_) => panic!("ends as a copied empty payload"),
    }
}

#[test]
fn chunk_major_mismatch_any_position() {
    // a text chunk inside an indefinite byte string, first position
    let input = hx("5f6161ff");
    let mut de = slice_de(&input);
    assert_eq!(
        de.deserialize_byte_buf().unwrap_err(),
        Error::IndefiniteStringInconsistent
    );
    // second position
    let input = hx("5f41016161ff");
    let mut de = slice_de(&input);
    assert_eq!(
        de.deserialize_byte_buf().unwrap_err(),
        Error::IndefiniteStringInconsistent
    );
    // and a byte chunk inside an indefinite text string, third position
    let input = hx("7f61616161410aff");
    let mut de = slice_de(&input);
    assert_eq!(
        de.deserialize_byte_buf().unwrap_err(),
        Error::IndefiniteStringInconsistent
    );
}

#[test]
fn owned_payload_reassembles_chunks() {
    let input = hx("5f4101420203ff");
    let mut de = slice_de(&input);
    assert_eq!(de.deserialize_byte_buf(), Ok(vec![1, 2, 3]));
    let input = hx("4401020304");
    let mut de = slice_de(&input);
    assert_eq!(de.deserialize_byte_buf(), Ok(vec![1, 2, 3, 4]));
    let input = hx("7f62616263646566ff");
    let mut de = slice_de(&input);
    assert_eq!(de.deserialize_string(), Ok(String::from("abdef")));
}

#[test]
fn text_vectors() {
    let input = hx("6449455446");
    let mut de = slice_de(&input);
    let r = de.deserialize_str().unwrap();
    let text = r.as_str(de.scratch()).unwrap();
    assert_eq!(text, "IETF");
    let input = hx("62c3bc");
    let mut de = slice_de(&input);
    let r = de.deserialize_str().unwrap();
    assert_eq!(r.as_str(de.scratch()).unwrap(), "\u{00fc}");
    let input = hx("60");
    let mut de = slice_de(&input);
    let r = de.deserialize_str().unwrap();
    assert_eq!(r.as_str(de.scratch()).unwrap(), "");
    // invalid UTF-8 is rejected at conversion
    let input = hx("61ff");
    let mut de = slice_de(&input);
    assert_eq!(de.deserialize_str().unwrap_err(), Error::InvalidUnicodeCodePoint);
}

#[test]
fn test_struct() {
    let test = hx("a56161614161626142616361436164614461656145");
    let mut de = slice_de(&test);
    let mut cursor = de.deserialize_map().unwrap();
    let mut pairs: Vec<(String, String)> = Vec::new();
    while cursor.next_key(&mut de).unwrap() {
        let k = de.deserialize_string().unwrap();
        cursor.next_value(&mut de).unwrap();
        let v = de.deserialize_string().unwrap();
        pairs.push((k, v));
    }
    assert_eq!(pairs.len(), 5);
    assert_eq!(pairs[0], (String::from("a"), String::from("A")));
    assert_eq!(pairs[1], (String::from("b"), String::from("B")));
    assert_eq!(pairs[2], (String::from("c"), String::from("C")));
    assert_eq!(pairs[3], (String::from("d"), String::from("D")));
    assert_eq!(pairs[4], (String::from("e"), String::from("E")));
}

#[test]
fn map_exhaustion_definite() {
    let input = hx("a1616101");
    let mut de = slice_de(&input);
    let mut cursor = de.deserialize_map().unwrap();
    assert!(cursor.next_key(&mut de).unwrap());
    let _ = de.deserialize_str().unwrap();
    cursor.next_value(&mut de).unwrap();
    assert_eq!(de.deserialize_u8(), Ok(1));
    // asking for one more value always fails with the unexpected break
    assert_eq!(cursor.next_value(&mut de).unwrap_err(), Error::UnexpectedBreak);
}

#[test]
fn map_exhaustion_indefinite() {
    let input = hx("bf616101ff");
    let mut de = slice_de(&input);
    let mut cursor = de.deserialize_map().unwrap();
    assert!(cursor.next_key(&mut de).unwrap());
    let _ = de.deserialize_str().unwrap();
    cursor.next_value(&mut de).unwrap();
    assert_eq!(de.deserialize_u8(), Ok(1));
    assert_eq!(cursor.next_value(&mut de).unwrap_err(), Error::UnexpectedBreak);
    // the terminator is consumed by the final key step
    assert!(!cursor.next_key(&mut de).unwrap());
}

#[test]
fn empty_and_indefinite_arrays() {
    let input = hx("80");
    let mut de = slice_de(&input);
    let mut cursor = de.deserialize_seq().unwrap();
    assert!(!cursor.next_element(&mut de).unwrap());

    let input = hx("9f010203ff");
    let mut de = slice_de(&input);
    let mut cursor = de.deserialize_seq().unwrap();
    let mut got: Vec<u8> = Vec::new();
    while cursor.next_element(&mut de).unwrap() {
        got.push(de.deserialize_u8().unwrap());
    }
    assert_eq!(got, vec![1, 2, 3]);

    let input = hx("83010203");
    let mut de = slice_de(&input);
    let mut cursor = de.deserialize_seq().unwrap();
    assert_eq!(cursor.size_hint(), Some(3));
    let mut got: Vec<u8> = Vec::new();
    while cursor.next_element(&mut de).unwrap() {
        got.push(de.deserialize_u8().unwrap());
    }
    assert_eq!(got, vec![1, 2, 3]);
}

#[test]
fn option_and_unit() {
    let input = hx("f6");
    let mut de = slice_de(&input);
    assert_eq!(de.deserialize_option(), Ok(false));
    let input = hx("f7");
    let mut de = slice_de(&input);
    assert_eq!(de.deserialize_option(), Ok(false));
    let input = hx("01");
    let mut de = slice_de(&input);
    assert_eq!(de.deserialize_option(), Ok(true));
    assert_eq!(de.deserialize_u8(), Ok(1));
    assert_eq!(slice_de(&hx("f6")).deserialize_unit(), Ok(()));
    assert_eq!(slice_de(&hx("f7")).deserialize_unit(), Ok(()));
    assert_eq!(slice_de(&hx("01")).deserialize_unit(), Err(Error::ExpectedSimple));
}

#[test]
fn simple_values() {
    assert_eq!(slice_de(&hx("f4")).deserialize_simple(), Ok(Some(false)));
    assert_eq!(slice_de(&hx("f5")).deserialize_simple(), Ok(Some(true)));
    assert_eq!(slice_de(&hx("f6")).deserialize_simple(), Ok(None));
    assert_eq!(slice_de(&hx("f0")).deserialize_simple(), Err(Error::UnknownSimpleValue(16)));
    assert_eq!(
        slice_de(&hx("f8ff")).deserialize_simple(),
        Err(Error::UnknownSimpleValue(255))
    );
    assert_eq!(slice_de(&hx("01")).deserialize_simple(), Err(Error::ExpectedSimple));
}

#[test]
fn shapes_dispatch() {
    assert_eq!(slice_de(&hx("00")).peek_shape(), Ok(Shape::U8));
    assert_eq!(slice_de(&hx("1903e8")).peek_shape(), Ok(Shape::U16));
    assert_eq!(slice_de(&hx("1a000f4240")).peek_shape(), Ok(Shape::U32));
    assert_eq!(slice_de(&hx("1b000000e8d4a51000")).peek_shape(), Ok(Shape::U64));
    assert_eq!(slice_de(&hx("20")).peek_shape(), Ok(Shape::I8));
    assert_eq!(slice_de(&hx("3903e7")).peek_shape(), Ok(Shape::I16));
    assert_eq!(slice_de(&hx("40")).peek_shape(), Ok(Shape::Bytes));
    assert_eq!(slice_de(&hx("60")).peek_shape(), Ok(Shape::Text));
    assert_eq!(slice_de(&hx("80")).peek_shape(), Ok(Shape::Array));
    assert_eq!(slice_de(&hx("a0")).peek_shape(), Ok(Shape::Mapping));
    assert_eq!(slice_de(&hx("c0")).peek_shape(), Ok(Shape::Tag));
    assert_eq!(slice_de(&hx("f4")).peek_shape(), Ok(Shape::Simple));
    assert_eq!(slice_de(&hx("f90000")).peek_shape(), Ok(Shape::Single));
    assert_eq!(slice_de(&hx("fa00000000")).peek_shape(), Ok(Shape::Single));
    assert_eq!(slice_de(&hx("fb0000000000000000")).peek_shape(), Ok(Shape::Double));
    assert_eq!(slice_de(&hx("ff")).peek_shape(), Err(Error::UnexpectedBreak));
}

#[test]
fn wrong_shapes_rejected() {
    assert_eq!(slice_de(&hx("40")).deserialize_u8(), Err(Error::ExpectedNumber));
    assert_eq!(slice_de(&hx("a0")).deserialize_seq().unwrap_err(), Error::ExpectedArray);
    assert_eq!(slice_de(&hx("80")).deserialize_map().unwrap_err(), Error::ExpectedMap);
    assert_eq!(slice_de(&hx("1903e8")).deserialize_u8(), Err(Error::NumberOutOfRange));
    assert_eq!(slice_de(&hx("20")).deserialize_u8(), Err(Error::NumberOutOfRange));
    assert_eq!(slice_de(&hx("3a80000000")).deserialize_i32(), Err(Error::NumberOutOfRange));
}

#[test]
fn error_categories() {
    assert!(matches!(Error::Eof.classify(), Category::Eof));
    assert!(matches!(Error::ItemIllFormed.classify(), Category::Syntax));
    assert!(matches!(Error::UnexpectedBreak.classify(), Category::Syntax));
    assert!(matches!(
        Error::IndefiniteStringInconsistent.classify(),
        Category::Syntax
    ));
    assert!(matches!(Error::NumberOutOfRange.classify(), Category::Semantic));
    assert!(matches!(Error::ScratchBufferTooSmall.classify(), Category::System));
    assert!(matches!(Error::Io.classify(), Category::Io));
    assert!(matches!(Error::UnknownSimpleValue(9).classify(), Category::Semantic));
}

struct VecStream {
    data: Vec<u8>,
    pos: usize,
}

impl ByteStream for VecStream {
    fn fill(&mut self, buf: &mut [u8]) -> Result<(), Error> {
        if self.data.len() - self.pos < buf.len() {
            return Err(Error::Io);
        }
        buf.copy_from_slice(&self.data[self.pos..self.pos + buf.len()]);
        self.pos += buf.len();
        Ok(())
    }
}

#[test]
fn stream_source_copies() {
    let stream = VecStream { data: hx("1903e8"), pos: 0 };
    let mut de = Deserializer::from_reader(stream, Vec::<u8>::new(), DeserializerConfig::default());
    assert_eq!(de.deserialize_u16(), Ok(1000));

    let stream = VecStream { data: hx("6449455446"), pos: 0 };
    let mut de = Deserializer::from_reader(stream, Vec::<u8>::new(), DeserializerConfig::default());
    let r = de.deserialize_str().unwrap();
    assert!(matches!(r, Reference::Copied));
    assert_eq!(r.as_str(de.scratch()).unwrap(), "IETF");

    // a stream source reports transport failures
    let stream = VecStream { data: hx("19"), pos: 0 };
    let mut de = Deserializer::from_reader(stream, Vec::<u8>::new(), DeserializerConfig::default());
    assert_eq!(de.deserialize_u16(), Err(Error::Io));

    // a stream source must copy, so a payload the scratch cannot hold
    // fails before the stream is read
    let stream = VecStream { data: hx("6449455446"), pos: 0 };
    let mut de =
        Deserializer::from_reader(stream, NullScratch::new(), DeserializerConfig::default());
    assert_eq!(de.deserialize_str().unwrap_err(), Error::ScratchBufferTooSmall);
    let stream = VecStream { data: hx("6449455446"), pos: 0 };
    let mut de =
        Deserializer::from_reader(stream, FixedScratch::new(3), DeserializerConfig::default());
    assert_eq!(de.deserialize_bytes().unwrap_err(), Error::ScratchBufferTooSmall);
}

#[test]
fn byteseq_access_operations() {
    let input = hx("4401020304");
    let mut de = slice_de(&input);
    let mut acc = ByteSeqAccess::new();
    match acc.deserialize_slice(&mut de).unwrap() {
        Reference::Borrowed(s) => assert_eq!(s, &[1, 2, 3, 4]),
        Reference::Copied => panic!("should not copy"),
    }
    let input = hx("5f4101420203ff");
    let mut de = slice_de(&input);
    let mut acc = ByteSeqAccess::new();
    assert_eq!(acc.deserialize_owned(&mut de), Ok(vec![1, 2, 3]));
}

#[test]
fn unsigned_value_round_trip() {
    let values = [
        0u64,
        1,
        23,
        24,
        255,
        256,
        65535,
        65536,
        4_294_967_295,
        4_294_967_296,
        u64::MAX,
    ];
    for v in values {
        let bytes = Header(Major::Positive, Arg::from_integer(v)).as_vec();
        let mut de = slice_de(&bytes);
        assert_eq!(de.deserialize_u64(), Ok(v));
    }
}
