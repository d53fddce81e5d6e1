//! The scalar vocabulary that the codec carries: booleans, integers of
//! every width, characters, strings and byte strings, together with the
//! exact bytes each one puts on the wire and what reading those bytes back
//! yields.

use vstd::prelude::*;

use crate::error::DecodeError;
use crate::escape::escape_bytes;
use crate::numeral::{dec_int, dec_uint, parse_int_spec, parse_uint_spec};
use crate::record::bool_bytes;
use vstd::utf8::{decode_utf8, encode_utf8, valid_utf8};

verus! {

/// One scalar value of the vocabulary.
#[derive(Debug, PartialEq)]
pub enum Scalar {
    Bool(bool),
    I8(i8),
    I16(i16),
    I32(i32),
    I64(i64),
    I128(i128),
    U8(u8),
    U16(u16),
    U32(u32),
    U64(u64),
    U128(u128),
    Char(char),
    Str(String),
    Bytes(Vec<u8>),
}

/// The mathematical value of a [`Scalar`].
pub enum ScalarValue {
    Bool(bool),
    I8(i8),
    I16(i16),
    I32(i32),
    I64(i64),
    I128(i128),
    U8(u8),
    U16(u16),
    U32(u32),
    U64(u64),
    U128(u128),
    Char(char),
    Str(Seq<char>),
    Bytes(Seq<u8>),
}

impl View for Scalar {
    type V = ScalarValue;

    open spec fn view(&self) -> ScalarValue {
        match self {
            Scalar::Bool(v) => ScalarValue::Bool(*v),
            Scalar::I8(v) => ScalarValue::I8(*v),
            Scalar::I16(v) => ScalarValue::I16(*v),
            Scalar::I32(v) => ScalarValue::I32(*v),
            Scalar::I64(v) => ScalarValue::I64(*v),
            Scalar::I128(v) => ScalarValue::I128(*v),
            Scalar::U8(v) => ScalarValue::U8(*v),
            Scalar::U16(v) => ScalarValue::U16(*v),
            Scalar::U32(v) => ScalarValue::U32(*v),
            Scalar::U64(v) => ScalarValue::U64(*v),
            Scalar::U128(v) => ScalarValue::U128(*v),
            Scalar::Char(v) => ScalarValue::Char(*v),
            Scalar::Str(v) => ScalarValue::Str(v@),
            Scalar::Bytes(v) => ScalarValue::Bytes(v@),
        }
    }
}

/// The declared shape of a scalar: what a reader is told to expect, since
/// the format is not self-describing.
#[derive(Clone, Copy, Debug, PartialEq, Eq, Structural)]
pub enum ScalarKind {
    Bool,
    I8,
    I16,
    I32,
    I64,
    I128,
    U8,
    U16,
    U32,
    U64,
    U128,
    Char,
    Str,
    Bytes,
}

/// The kind of a scalar value.
pub open spec fn kind_of(v: ScalarValue) -> ScalarKind {
    match v {
        ScalarValue::Bool(_) => ScalarKind::Bool,
        ScalarValue::I8(_) => ScalarKind::I8,
        ScalarValue::I16(_) => ScalarKind::I16,
        ScalarValue::I32(_) => ScalarKind::I32,
        ScalarValue::I64(_) => ScalarKind::I64,
        ScalarValue::I128(_) => ScalarKind::I128,
        ScalarValue::U8(_) => ScalarKind::U8,
        ScalarValue::U16(_) => ScalarKind::U16,
        ScalarValue::U32(_) => ScalarKind::U32,
        ScalarValue::U64(_) => ScalarKind::U64,
        ScalarValue::U128(_) => ScalarKind::U128,
        ScalarValue::Char(_) => ScalarKind::Char,
        ScalarValue::Str(_) => ScalarKind::Str,
        ScalarValue::Bytes(_) => ScalarKind::Bytes,
    }
}

impl Scalar {
    /// The kind of this scalar.
    pub fn kind(&self) -> (k: ScalarKind)
        ensures
            k == kind_of(self@),
    {
        match self {
            Scalar::Bool(_) => ScalarKind::Bool,
            Scalar::I8(_) => ScalarKind::I8,
            Scalar::I16(_) => ScalarKind::I16,
            Scalar::I32(_) => ScalarKind::I32,
            Scalar::I64(_) => ScalarKind::I64,
            Scalar::I128(_) => ScalarKind::I128,
            Scalar::U8(_) => ScalarKind::U8,
            Scalar::U16(_) => ScalarKind::U16,
            Scalar::U32(_) => ScalarKind::U32,
            Scalar::U64(_) => ScalarKind::U64,
            Scalar::U128(_) => ScalarKind::U128,
            Scalar::Char(_) => ScalarKind::Char,
            Scalar::Str(_) => ScalarKind::Str,
            Scalar::Bytes(_) => ScalarKind::Bytes,
        }
    }
}

/// The content bytes of a scalar before any escaping: the token a reader
/// gets back from the scanner.
pub open spec fn content_of(v: ScalarValue) -> Seq<u8> {
    match v {
        ScalarValue::Bool(b) => bool_bytes(b),
        ScalarValue::I8(x) => dec_int(x as int),
        ScalarValue::I16(x) => dec_int(x as int),
        ScalarValue::I32(x) => dec_int(x as int),
        ScalarValue::I64(x) => dec_int(x as int),
        ScalarValue::I128(x) => dec_int(x as int),
        ScalarValue::U8(x) => dec_uint(x as nat),
        ScalarValue::U16(x) => dec_uint(x as nat),
        ScalarValue::U32(x) => dec_uint(x as nat),
        ScalarValue::U64(x) => dec_uint(x as nat),
        ScalarValue::U128(x) => dec_uint(x as nat),
        ScalarValue::Char(c) => encode_utf8(seq![c]),
        ScalarValue::Str(s) => encode_utf8(s),
        ScalarValue::Bytes(b) => b,
    }
}

/// Whether a scalar's content is escaped on the wire. The words and
/// numbers hold no reserved byte and are written as they stand; character,
/// string and byte content passes through the escape engine.
pub open spec fn content_escaped(v: ScalarValue) -> bool {
    match v {
        ScalarValue::Char(_) => true,
        ScalarValue::Str(_) => true,
        ScalarValue::Bytes(_) => true,
        _ => false,
    }
}

/// The wire bytes of a scalar: its content, escaped where the kind asks
/// for it.
pub open spec fn wire_of(v: ScalarValue) -> Seq<u8> {
    if content_escaped(v) {
        escape_bytes(content_of(v))
    } else {
        content_of(v)
    }
}

/// A scalar the wire can carry back: byte-string content must itself scan
/// as UTF-8 characters, since the scanner walks content character by
/// character.
pub open spec fn scalar_wf(v: ScalarValue) -> bool {
    match v {
        ScalarValue::Bytes(b) => valid_utf8(b),
        _ => true,
    }
}

/// What decoding a scanned token as a `kind` yields.
pub open spec fn decode_content(kind: ScalarKind, t: Seq<u8>) -> Result<
    ScalarValue,
    DecodeError,
> {
    match kind {
        ScalarKind::Bool => if t == bool_bytes(true) {
            Ok(ScalarValue::Bool(true))
        } else if t == bool_bytes(false) {
            Ok(ScalarValue::Bool(false))
        } else {
            Err(DecodeError::InvalidNumber)
        },
        ScalarKind::I8 => match parse_int_spec(t, i8::MIN as int, i8::MAX as int) {
            Ok(v) => Ok(ScalarValue::I8(v as i8)),
            Err(e) => Err(e),
        },
        ScalarKind::I16 => match parse_int_spec(t, i16::MIN as int, i16::MAX as int) {
            Ok(v) => Ok(ScalarValue::I16(v as i16)),
            Err(e) => Err(e),
        },
        ScalarKind::I32 => match parse_int_spec(t, i32::MIN as int, i32::MAX as int) {
            Ok(v) => Ok(ScalarValue::I32(v as i32)),
            Err(e) => Err(e),
        },
        ScalarKind::I64 => match parse_int_spec(t, i64::MIN as int, i64::MAX as int) {
            Ok(v) => Ok(ScalarValue::I64(v as i64)),
            Err(e) => Err(e),
        },
        ScalarKind::I128 => match parse_int_spec(t, i128::MIN as int, i128::MAX as int) {
            Ok(v) => Ok(ScalarValue::I128(v as i128)),
            Err(e) => Err(e),
        },
        ScalarKind::U8 => match parse_uint_spec(t, u8::MAX as int) {
            Ok(v) => Ok(ScalarValue::U8(v as u8)),
            Err(e) => Err(e),
        },
        ScalarKind::U16 => match parse_uint_spec(t, u16::MAX as int) {
            Ok(v) => Ok(ScalarValue::U16(v as u16)),
            Err(e) => Err(e),
        },
        ScalarKind::U32 => match parse_uint_spec(t, u32::MAX as int) {
            Ok(v) => Ok(ScalarValue::U32(v as u32)),
            Err(e) => Err(e),
        },
        ScalarKind::U64 => match parse_uint_spec(t, u64::MAX as int) {
            Ok(v) => Ok(ScalarValue::U64(v as u64)),
            Err(e) => Err(e),
        },
        ScalarKind::U128 => match parse_uint_spec(t, u128::MAX as int) {
            Ok(v) => Ok(ScalarValue::U128(v as u128)),
            Err(e) => Err(e),
        },
        ScalarKind::Char => if valid_utf8(t) && decode_utf8(t).len() == 1 {
            Ok(ScalarValue::Char(decode_utf8(t)[0]))
        } else {
            Err(DecodeError::InvalidUtf8)
        },
        ScalarKind::Str => if valid_utf8(t) {
            Ok(ScalarValue::Str(decode_utf8(t)))
        } else {
            Err(DecodeError::InvalidUtf8)
        },
        ScalarKind::Bytes => Ok(ScalarValue::Bytes(t)),
    }
}

/// Decoding a scalar's own content under its own kind gives the scalar
/// back: the content-level heart of the round trip.
pub proof fn lemma_decode_content_of(v: ScalarValue)
    ensures
        decode_content(kind_of(v), content_of(v)) == Ok::<ScalarValue, DecodeError>(v),
{
    broadcast use vstd::utf8::encode_utf8_valid_utf8;

    match v {
        ScalarValue::Bool(b) => {
            assert(bool_bytes(true) != bool_bytes(false)) by {
                assert(bool_bytes(true).len() == 4 && bool_bytes(false).len() == 5);
            }
        },
        ScalarValue::I8(x) => {
            crate::numeral::lemma_parse_int_round_trip(x as int, i8::MIN as int, i8::MAX as int);
        },
        ScalarValue::I16(x) => {
            crate::numeral::lemma_parse_int_round_trip(x as int, i16::MIN as int, i16::MAX as int);
        },
        ScalarValue::I32(x) => {
            crate::numeral::lemma_parse_int_round_trip(x as int, i32::MIN as int, i32::MAX as int);
        },
        ScalarValue::I64(x) => {
            crate::numeral::lemma_parse_int_round_trip(x as int, i64::MIN as int, i64::MAX as int);
        },
        ScalarValue::I128(x) => {
            crate::numeral::lemma_parse_int_round_trip(
                x as int,
                i128::MIN as int,
                i128::MAX as int,
            );
        },
        ScalarValue::U8(x) => {
            crate::numeral::lemma_parse_uint_round_trip(x as nat, u8::MAX as int);
        },
        ScalarValue::U16(x) => {
            crate::numeral::lemma_parse_uint_round_trip(x as nat, u16::MAX as int);
        },
        ScalarValue::U32(x) => {
            crate::numeral::lemma_parse_uint_round_trip(x as nat, u32::MAX as int);
        },
        ScalarValue::U64(x) => {
            crate::numeral::lemma_parse_uint_round_trip(x as nat, u64::MAX as int);
        },
        ScalarValue::U128(x) => {
            crate::numeral::lemma_parse_uint_round_trip(x as nat, u128::MAX as int);
        },
        ScalarValue::Char(c) => {
            let t = encode_utf8(seq![c]);
            assert(valid_utf8(t));
            vstd::utf8::encode_utf8_decode_utf8(seq![c]);
            assert(decode_utf8(t)[0] == c);
        },
        ScalarValue::Str(s) => {
            let t = encode_utf8(s);
            assert(valid_utf8(t));
            vstd::utf8::encode_utf8_decode_utf8(s);
        },
        ScalarValue::Bytes(_) => {},
    }
}

/// The content of a word or number scalar is plain ASCII, so raw writing
/// and scanning agree on it.
pub proof fn lemma_raw_content_plain(v: ScalarValue)
    requires
        !content_escaped(v),
    ensures
        forall|k: int|
            0 <= k < content_of(v).len() ==> crate::de::scan::is_plain_ascii(
                #[trigger] content_of(v)[k],
            ),
{
    let t = content_of(v);
    assert forall|k: int| 0 <= k < t.len() implies crate::de::scan::is_plain_ascii(
        #[trigger] t[k],
    ) by {
        lemma_raw_content_plain_at(v, k);
    }
}

proof fn lemma_raw_content_plain_at(v: ScalarValue, k: int)
    requires
        !content_escaped(v),
        0 <= k < content_of(v).len(),
    ensures
        crate::de::scan::is_plain_ascii(content_of(v)[k]),
{
    match v {
        ScalarValue::Bool(b) => {
            let t = content_of(v);
            if b {
                assert(t =~= seq![0x74u8, 0x72, 0x75, 0x65]);
                assert(t[0] == 0x74 && t[1] == 0x72 && t[2] == 0x75 && t[3] == 0x65);
            } else {
                assert(t =~= seq![0x66u8, 0x61, 0x6c, 0x73, 0x65]);
                assert(t[0] == 0x66 && t[1] == 0x61 && t[2] == 0x6c && t[3] == 0x73 && t[4]
                    == 0x65);
            }
        },
        ScalarValue::I8(x) => {
            lemma_dec_int_plain_at(x as int, k);
        },
        ScalarValue::I16(x) => {
            lemma_dec_int_plain_at(x as int, k);
        },
        ScalarValue::I32(x) => {
            lemma_dec_int_plain_at(x as int, k);
        },
        ScalarValue::I64(x) => {
            lemma_dec_int_plain_at(x as int, k);
        },
        ScalarValue::I128(x) => {
            lemma_dec_int_plain_at(x as int, k);
        },
        ScalarValue::U8(x) => {
            lemma_dec_digits_plain_at(x as nat, k);
        },
        ScalarValue::U16(x) => {
            lemma_dec_digits_plain_at(x as nat, k);
        },
        ScalarValue::U32(x) => {
            lemma_dec_digits_plain_at(x as nat, k);
        },
        ScalarValue::U64(x) => {
            lemma_dec_digits_plain_at(x as nat, k);
        },
        ScalarValue::U128(x) => {
            lemma_dec_digits_plain_at(x as nat, k);
        },
        _ => {},
    }
}

/// A decimal digit byte is plain ASCII.
proof fn lemma_dec_digits_plain_at(m: nat, k: int)
    requires
        0 <= k < crate::numeral::dec_digits(m).len(),
    ensures
        crate::de::scan::is_plain_ascii(crate::numeral::dec_digits(m)[k]),
{
    crate::numeral::lemma_dec_digits_wf(m);
    assert(crate::numeral::is_dec_digit(crate::numeral::dec_digits(m)[k]));
}

/// A byte of decimal integer text is plain ASCII.
proof fn lemma_dec_int_plain_at(i: int, k: int)
    requires
        0 <= k < dec_int(i).len(),
    ensures
        crate::de::scan::is_plain_ascii(dec_int(i)[k]),
{
    if i < 0 {
        let m = (-i) as nat;
        assert(dec_int(i) == seq![crate::escape::B_MINUS] + crate::numeral::dec_digits(m));
        if k == 0 {
            assert(dec_int(i)[0] == crate::escape::B_MINUS);
        } else {
            assert(dec_int(i)[k] == crate::numeral::dec_digits(m)[k - 1]);
            lemma_dec_digits_plain_at(m, k - 1);
        }
    } else {
        assert(dec_int(i) == crate::numeral::dec_digits(i as nat));
        lemma_dec_digits_plain_at(i as nat, k);
    }
}

} // verus!
