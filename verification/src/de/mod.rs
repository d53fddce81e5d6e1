//! The decoder: the scanner and the readers that reconstruct values from
//! the byte stream, mirroring the encoder's grammar. The format is not
//! self-describing, so every reader is told what shape to expect.

pub mod scan;

use vstd::prelude::*;

use crate::error::DecodeError;
use crate::numeral::{parse_i128, parse_int_spec, parse_u128, parse_uint_spec};
use crate::value::{decode_content, Scalar, ScalarKind, ScalarValue};
use vstd::slice::slice_to_vec;
use vstd::utf8::{
    decode_utf8, encode_utf8, is_scalar, length_of_first_scalar, pop_first_scalar,
    valid_first_scalar, valid_utf8,
};

verus! {

/// A narrower signed range refuses with `Overflow` exactly the values that
/// the widest parse accepts but the range excludes.
proof fn lemma_parse_int_narrow(t: Seq<u8>, min: int, max: int)
    requires
        i128::MIN as int <= min <= 0,
        0 <= max <= i128::MAX as int,
    ensures
        parse_int_spec(t, min, max) == match parse_int_spec(t, i128::MIN as int, i128::MAX as int) {
            Ok(v) => if v < min || v > max {
                Err::<int, DecodeError>(DecodeError::Overflow)
            } else {
                Ok::<int, DecodeError>(v)
            },
            Err(e) => Err::<int, DecodeError>(e),
        },
{
    if t.len() >= 1 && t[0] == crate::escape::B_MINUS {
        let m = t.skip(1);
        if m.len() == 0 || !crate::numeral::all_dec_digits(m) {
        } else {
            crate::numeral::lemma_dec_val_nonneg(m);
            let v = -crate::numeral::dec_val(m);
            assert(v <= 0 <= max);
            if v < i128::MIN as int {
                assert(v < min);
            }
        }
    } else {
        if !(t.len() == 0 || !crate::numeral::all_dec_digits(t)) {
            crate::numeral::lemma_dec_val_nonneg(t);
            let v = crate::numeral::dec_val(t);
            assert(min <= 0 <= v);
            if v > i128::MAX as int {
                assert(v > max);
            }
        }
    }
}

/// A narrower unsigned bound refuses with `Overflow` exactly the values
/// that the widest parse accepts but the bound excludes.
proof fn lemma_parse_uint_narrow(t: Seq<u8>, max: int)
    requires
        0 <= max <= u128::MAX as int,
    ensures
        parse_uint_spec(t, max) == match parse_uint_spec(t, u128::MAX as int) {
            Ok(v) => if v > max {
                Err::<int, DecodeError>(DecodeError::Overflow)
            } else {
                Ok::<int, DecodeError>(v)
            },
            Err(e) => Err::<int, DecodeError>(e),
        },
{
    if !(t.len() == 0 || !crate::numeral::all_dec_digits(t)) {
        crate::numeral::lemma_dec_val_nonneg(t);
    }
}

/// Relies on `char::from_u32` of the standard library: it returns the
/// character of the given code point exactly when the value is a Unicode
/// scalar, and `None` for surrogates and values above the Unicode range.
pub assume_specification[ char::from_u32 ](u: u32) -> (r: Option<char>)
    ensures
        r == if is_scalar(u) {
            Some(u as char)
        } else {
            None::<char>
        },
;

/// Relies on `String::from_utf8` of the standard library: it succeeds
/// exactly on valid UTF-8 input and returns the string whose encoding is
/// that input.
#[verifier::external_body]
fn string_from_utf8(v: Vec<u8>) -> (r: Option<String>)
    ensures
        match r {
            Some(s) => valid_utf8(v@) && encode_utf8(s@) == v@,
            None => !valid_utf8(v@),
        },
{
    String::from_utf8(v).ok()
}

/// Reads one whole character out of a token, failing with `InvalidUtf8`
/// unless the token is exactly the UTF-8 encoding of one character.
fn decode_one_char(t: &[u8]) -> (r: Result<char, DecodeError>)
    ensures
        match r {
            Ok(c) => valid_utf8(t@) && decode_utf8(t@).len() == 1 && c == decode_utf8(t@)[0],
            Err(e) => e == DecodeError::InvalidUtf8 && !(valid_utf8(t@) && decode_utf8(t@).len()
                == 1),
        },
{
    let n = t.len();
    if n == 0 {
        return Err(DecodeError::InvalidUtf8);
    }
    let b0 = t[0];
    let w = crate::utf8::utf8_char_width(b0) as usize;
    if w == 0 || n != w {
        proof {
            if valid_utf8(t@) && decode_utf8(t@).len() == 1 {
                crate::utf8::lemma_width_of_first_scalar(t@);
                assert(pop_first_scalar(t@).len() == t@.len() - length_of_first_scalar(t@));
                assert(decode_utf8(t@) == seq![
                    vstd::utf8::decode_first_scalar(t@) as char,
                ] + decode_utf8(pop_first_scalar(t@)));
                assert(decode_utf8(pop_first_scalar(t@)).len() == 0);
                if pop_first_scalar(t@).len() != 0 {
                    assert(decode_utf8(pop_first_scalar(t@)).len() >= 1);
                }
                assert(n == length_of_first_scalar(t@));
                assert(false);
            }
        }
        return Err(DecodeError::InvalidUtf8);
    }
    let cp: u32;
    if w == 1 {
        cp = b0 as u32;
        proof {
            assert(vstd::utf8::is_leading_byte_width_1(b0));
            assert((b0 & 0x7f) as u32 == b0 as u32) by (bit_vector)
                requires
                    b0 < 0x80,
            ;
            assert(cp == vstd::utf8::codepoint_width_1(b0));
        }
    } else if w == 2 {
        let b1 = t[1];
        if !(0x80 <= b1 && b1 <= 0xbf) {
            proof {
                lemma_not_valid_bad_continuation(t@);
            }
            return Err(DecodeError::InvalidUtf8);
        }
        cp = (((b0 & 0x1f) as u32) << 6u32) | ((b1 & 0x3f) as u32);
        proof {
            assert(cp == vstd::utf8::codepoint_width_2(b0, b1));
            assert(0x80 <= cp <= 0x7ff) by (bit_vector)
                requires
                    cp == ((((b0 & 0x1f) as u32) << 6u32) | ((b1 & 0x3f) as u32)),
                    0xc2 <= b0 <= 0xdf,
            ;
        }
    } else if w == 3 {
        let b1 = t[1];
        let b2 = t[2];
        if !(0x80 <= b1 && b1 <= 0xbf) || !(0x80 <= b2 && b2 <= 0xbf) {
            proof {
                lemma_not_valid_bad_continuation(t@);
            }
            return Err(DecodeError::InvalidUtf8);
        }
        cp = (((b0 & 0x0f) as u32) << 12u32) | (((b1 & 0x3f) as u32) << 6u32) | ((b2
            & 0x3f) as u32);
        proof {
            assert(cp == vstd::utf8::codepoint_width_3(b0, b1, b2));
            assert(cp <= 0xffff) by (bit_vector)
                requires
                    cp == ((((b0 & 0x0f) as u32) << 12u32) | (((b1 & 0x3f) as u32) << 6u32) | ((b2
                        & 0x3f) as u32)),
            ;
        }
        if cp < 0x800 || (0xd800 <= cp && cp <= 0xdfff) {
            proof {
                lemma_not_valid_bad_codepoint(t@, cp);
            }
            return Err(DecodeError::InvalidUtf8);
        }
    } else {
        let b1 = t[1];
        let b2 = t[2];
        let b3 = t[3];
        if !(0x80 <= b1 && b1 <= 0xbf) || !(0x80 <= b2 && b2 <= 0xbf) || !(0x80 <= b3 && b3
            <= 0xbf) {
            proof {
                lemma_not_valid_bad_continuation(t@);
            }
            return Err(DecodeError::InvalidUtf8);
        }
        cp = (((b0 & 0x07) as u32) << 18u32) | (((b1 & 0x3f) as u32) << 12u32) | (((b2
            & 0x3f) as u32) << 6u32) | ((b3 & 0x3f) as u32);
        proof {
            assert(cp == vstd::utf8::codepoint_width_4(b0, b1, b2, b3));
        }
        if cp < 0x10000 || cp > 0x10ffff {
            proof {
                lemma_not_valid_bad_codepoint(t@, cp);
            }
            return Err(DecodeError::InvalidUtf8);
        }
    }
    proof {
        assert(valid_first_scalar(t@));
        assert(cp == vstd::utf8::decode_first_scalar(t@));
        assert(length_of_first_scalar(t@) == n);
        assert(pop_first_scalar(t@) =~= Seq::<u8>::empty());
        assert(valid_utf8(Seq::<u8>::empty()));
        assert(valid_utf8(t@));
        assert(decode_utf8(Seq::<u8>::empty()) =~= Seq::<char>::empty());
        assert(decode_utf8(t@) =~= seq![cp as char]);
        assert(is_scalar(cp));
    }
    match char::from_u32(cp) {
        Some(c) => Ok(c),
        None => {
            proof {
                assert(false);
            }
            Err(DecodeError::InvalidUtf8)
        },
    }
}

/// A token whose lead byte asks for continuation bytes that are not there
/// does not begin a well-formed scalar.
proof fn lemma_not_valid_bad_continuation(t: Seq<u8>)
    ensures
        (exists|j: int|
            1 <= j < crate::utf8::utf8_width(t[0]) && j < t.len()
                && !vstd::utf8::is_continuation_byte(#[trigger] t[j])) ==> !(valid_utf8(t)
            && decode_utf8(t).len() == 1),
{
    if t.len() > 0 && valid_utf8(t) {
        crate::utf8::lemma_width_of_first_scalar(t);
    }
}

/// A token whose code point is overlong for its width, or a surrogate,
/// does not begin a well-formed scalar.
proof fn lemma_not_valid_bad_codepoint(t: Seq<u8>, cp: u32)
    requires
        t.len() > 0,
        vstd::utf8::valid_leading_and_continuation_bytes_first_codepoint(t) ==> cp
            == vstd::utf8::decode_first_codepoint(t),
        !vstd::utf8::not_overlong_encoding(cp, vstd::utf8::length_of_first_codepoint(t))
            || !vstd::utf8::not_surrogate(cp),
    ensures
        !valid_utf8(t),
{
}

/// Compares two byte strings.
fn bytes_eq(a: &[u8], b: &[u8]) -> (r: bool)
    ensures
        r == (a@ =~= b@),
{
    let n = a.len();
    if n != b.len() {
        return false;
    }
    let mut i: usize = 0;
    while i < n
        invariant
            0 <= i <= n,
            n == a@.len() == b@.len(),
            forall|j: int| 0 <= j < i ==> a@[j] == b@[j],
        decreases n - i,
    {
        if a[i] != b[i] {
            return false;
        }
        i = i + 1;
    }
    true
}

/// Reads a scanned token back as a scalar of the declared kind, as
/// [`decode_content`] says.
pub fn decode_scalar(kind: ScalarKind, token: &[u8]) -> (r: Result<Scalar, DecodeError>)
    ensures
        match r {
            Ok(s) => decode_content(kind, token@) == Ok::<ScalarValue, DecodeError>(s@),
            Err(e) => decode_content(kind, token@) == Err::<ScalarValue, DecodeError>(e),
        },
{
    match kind {
        ScalarKind::Bool => {
            let mut word: Vec<u8> = Vec::new();
            word.push(0x74);
            word.push(0x72);
            word.push(0x75);
            word.push(0x65);
            if bytes_eq(token, word.as_slice()) {
                proof {
                    assert(word@ =~= crate::record::bool_bytes(true));
                }
                return Ok(Scalar::Bool(true));
            }
            let mut word_f: Vec<u8> = Vec::new();
            word_f.push(0x66);
            word_f.push(0x61);
            word_f.push(0x6c);
            word_f.push(0x73);
            word_f.push(0x65);
            if bytes_eq(token, word_f.as_slice()) {
                proof {
                    assert(word_f@ =~= crate::record::bool_bytes(false));
                }
                return Ok(Scalar::Bool(false));
            }
            proof {
                assert(word@ =~= crate::record::bool_bytes(true));
                assert(word_f@ =~= crate::record::bool_bytes(false));
            }
            Err(DecodeError::InvalidNumber)
        },
        ScalarKind::I8 => {
            proof {
                lemma_parse_int_narrow(token@, i8::MIN as int, i8::MAX as int);
            }
            match parse_i128(token) {
                Ok(v) => if v < i8::MIN as i128 || v > i8::MAX as i128 {
                    Err(DecodeError::Overflow)
                } else {
                    Ok(Scalar::I8(v as i8))
                },
                Err(e) => Err(e),
            }
        },
        ScalarKind::I16 => {
            proof {
                lemma_parse_int_narrow(token@, i16::MIN as int, i16::MAX as int);
            }
            match parse_i128(token) {
                Ok(v) => if v < i16::MIN as i128 || v > i16::MAX as i128 {
                    Err(DecodeError::Overflow)
                } else {
                    Ok(Scalar::I16(v as i16))
                },
                Err(e) => Err(e),
            }
        },
        ScalarKind::I32 => {
            proof {
                lemma_parse_int_narrow(token@, i32::MIN as int, i32::MAX as int);
            }
            match parse_i128(token) {
                Ok(v) => if v < i32::MIN as i128 || v > i32::MAX as i128 {
                    Err(DecodeError::Overflow)
                } else {
                    Ok(Scalar::I32(v as i32))
                },
                Err(e) => Err(e),
            }
        },
        ScalarKind::I64 => {
            proof {
                lemma_parse_int_narrow(token@, i64::MIN as int, i64::MAX as int);
            }
            match parse_i128(token) {
                Ok(v) => if v < i64::MIN as i128 || v > i64::MAX as i128 {
                    Err(DecodeError::Overflow)
                } else {
                    Ok(Scalar::I64(v as i64))
                },
                Err(e) => Err(e),
            }
        },
        ScalarKind::I128 => {
            match parse_i128(token) {
                Ok(v) => Ok(Scalar::I128(v)),
                Err(e) => Err(e),
            }
        },
        ScalarKind::U8 => {
            proof {
                lemma_parse_uint_narrow(token@, u8::MAX as int);
            }
            match parse_u128(token) {
                Ok(v) => if v > u8::MAX as u128 {
                    Err(DecodeError::Overflow)
                } else {
                    Ok(Scalar::U8(v as u8))
                },
                Err(e) => Err(e),
            }
        },
        ScalarKind::U16 => {
            proof {
                lemma_parse_uint_narrow(token@, u16::MAX as int);
            }
            match parse_u128(token) {
                Ok(v) => if v > u16::MAX as u128 {
                    Err(DecodeError::Overflow)
                } else {
                    Ok(Scalar::U16(v as u16))
                },
                Err(e) => Err(e),
            }
        },
        ScalarKind::U32 => {
            proof {
                lemma_parse_uint_narrow(token@, u32::MAX as int);
            }
            match parse_u128(token) {
                Ok(v) => if v > u32::MAX as u128 {
                    Err(DecodeError::Overflow)
                } else {
                    Ok(Scalar::U32(v as u32))
                },
                Err(e) => Err(e),
            }
        },
        ScalarKind::U64 => {
            proof {
                lemma_parse_uint_narrow(token@, u64::MAX as int);
            }
            match parse_u128(token) {
                Ok(v) => if v > u64::MAX as u128 {
                    Err(DecodeError::Overflow)
                } else {
                    Ok(Scalar::U64(v as u64))
                },
                Err(e) => Err(e),
            }
        },
        ScalarKind::U128 => {
            match parse_u128(token) {
                Ok(v) => Ok(Scalar::U128(v)),
                Err(e) => Err(e),
            }
        },
        ScalarKind::Char => {
            match decode_one_char(token) {
                Ok(c) => Ok(Scalar::Char(c)),
                Err(e) => Err(e),
            }
        },
        ScalarKind::Str => {
            match string_from_utf8(slice_to_vec(token)) {
                Some(s) => {
                    proof {
                        vstd::utf8::encode_utf8_decode_utf8(s@);
                    }
                    Ok(Scalar::Str(s))
                },
                None => Err(DecodeError::InvalidUtf8),
            }
        },
        ScalarKind::Bytes => Ok(Scalar::Bytes(slice_to_vec(token))),
    }
}

/// What reading the parameters of a record yields, the cursor standing on
/// the delimiter that ended the tag: the parameter tokens, one per `:`,
/// and the count of bytes consumed through the terminating `;` and its
/// newline.
pub open spec fn scan_params(s: Seq<u8>) -> Result<(Seq<Seq<u8>>, int), DecodeError>
    decreases s.len(),
{
    if s.len() == 0 {
        Err(DecodeError::UnterminatedRecord)
    } else if s[0] == crate::escape::B_SEMI {
        if s.len() >= 2 && s[1] == crate::escape::B_NL {
            Ok((Seq::empty(), 2))
        } else {
            Err(DecodeError::UnterminatedRecord)
        }
    } else if s[0] == crate::escape::B_COLON {
        match scan::scan_token(s.skip(1)) {
            Ok(p) => {
                let step = if p.1 < 0 {
                    1
                } else if 1 + p.1 > s.len() {
                    s.len() as int
                } else {
                    1 + p.1
                };
                match scan_params(s.skip(step)) {
                    Ok(q) => Ok((seq![p.0] + q.0, step + q.1)),
                    Err(e) => Err(e),
                }
            },
            Err(e) => Err(e),
        }
    } else {
        Err(DecodeError::UnknownTag)
    }
}

/// What reading one whole record yields: its tag, its parameter tokens,
/// and the bytes consumed, the newline after `;` included.
pub open spec fn read_record_spec(s: Seq<u8>) -> Result<
    ((Seq<u8>, Seq<Seq<u8>>), int),
    DecodeError,
> {
    if s.len() == 0 {
        Err(DecodeError::UnterminatedRecord)
    } else if s[0] != crate::escape::B_HASH {
        Err(DecodeError::UnknownTag)
    } else {
        match scan::scan_token(s.skip(1)) {
            Ok(p) => match scan_params(s.skip(1 + p.1)) {
                Ok(q) => Ok(((p.0, q.0), 1 + p.1 + q.1)),
                Err(e) => Err(e),
            },
            Err(e) => Err(e),
        }
    }
}

/// Composes already-read parameters with the reading of the rest.
pub open spec fn prepend_params(
    ps: Seq<Seq<u8>>,
    d: int,
    r: Result<(Seq<Seq<u8>>, int), DecodeError>,
) -> Result<(Seq<Seq<u8>>, int), DecodeError> {
    match r {
        Ok(q) => Ok((ps + q.0, q.1 + d)),
        Err(e) => Err(e),
    }
}

proof fn lemma_prepend_params_empty(r: Result<(Seq<Seq<u8>>, int), DecodeError>)
    ensures
        prepend_params(Seq::empty(), 0, r) == r,
{
    match r {
        Ok(q) => {
            assert(Seq::<Seq<u8>>::empty() + q.0 =~= q.0);
        },
        Err(_) => {},
    }
}

proof fn lemma_prepend_params_snoc(
    ps: Seq<Seq<u8>>,
    d: int,
    t: Seq<u8>,
    d2: int,
    r: Result<(Seq<Seq<u8>>, int), DecodeError>,
)
    ensures
        prepend_params(ps, d, prepend_params(seq![t], d2, r)) == prepend_params(
            ps.push(t),
            d + d2,
            r,
        ),
{
    match r {
        Ok(q) => {
            assert(ps + (seq![t] + q.0) =~= ps.push(t) + q.0);
        },
        Err(_) => {},
    }
}

/// Reads the parameters of a record, the cursor standing on the delimiter
/// that ended the tag, as [`scan_params`] says of the suffix.
pub fn read_params(input: &[u8], from: usize) -> (r: Result<(Vec<Vec<u8>>, usize), DecodeError>)
    requires
        from <= input@.len(),
    ensures
        match r {
            Ok(p) => from < p.1 <= input@.len() && scan_params(input@.skip(from as int)) == Ok::<
                (Seq<Seq<u8>>, int),
                DecodeError,
            >((p.0.deep_view(), p.1 - from)),
            Err(e) => scan_params(input@.skip(from as int)) == Err::<
                (Seq<Seq<u8>>, int),
                DecodeError,
            >(e),
        },
{
    let n = input.len();
    let mut params: Vec<Vec<u8>> = Vec::new();
    let mut pos: usize = from;
    proof {
        lemma_prepend_params_empty(scan_params(input@.skip(from as int)));
        assert(params.deep_view() =~= Seq::<Seq<u8>>::empty());
    }
    loop
        invariant
            from <= pos <= n,
            n == input@.len(),
            scan_params(input@.skip(from as int)) == prepend_params(
                params.deep_view(),
                pos - from,
                scan_params(input@.skip(pos as int)),
            ),
        decreases n - pos,
    {
        let ghost suf = input@.skip(pos as int);
        let ghost pre = params.deep_view();
        if pos >= n {
            assert(suf.len() == 0);
            return Err(DecodeError::UnterminatedRecord);
        }
        let b = input[pos];
        assert(suf[0] == b);
        if b == crate::escape::B_SEMI {
            if pos + 1 < n && input[pos + 1] == crate::escape::B_NL {
                assert(suf.len() >= 2 && suf[1] == crate::escape::B_NL);
                proof {
                    assert(pre + Seq::<Seq<u8>>::empty() =~= pre);
                }
                return Ok((params, pos + 2));
            }
            assert(!(suf.len() >= 2 && suf[1] == crate::escape::B_NL));
            return Err(DecodeError::UnterminatedRecord);
        } else if b == crate::escape::B_COLON {
            match scan::read_token(input, pos + 1) {
                Ok((val, dpos)) => {
                    proof {
                        assert(suf.skip(1) =~= input@.skip(pos + 1));
                    }
                    let ghost step = 1 + (dpos - (pos + 1));
                    proof {
                        assert(scan::scan_token(suf.skip(1)) == Ok::<(Seq<u8>, int), DecodeError>(
                            (val@, dpos - (pos + 1)),
                        ));
                        assert(0 <= dpos - (pos + 1));
                        assert(step <= suf.len());
                        assert(suf.skip(step) =~= input@.skip(dpos as int));
                    }
                    params.push(val);
                    proof {
                        assert(params.deep_view() =~~= pre.push(val@));
                        lemma_prepend_params_snoc(
                            pre,
                            pos - from,
                            val@,
                            dpos - pos,
                            scan_params(input@.skip(dpos as int)),
                        );
                    }
                    pos = dpos;
                },
                Err(e) => {
                    proof {
                        assert(suf.skip(1) =~= input@.skip(pos + 1));
                    }
                    return Err(e);
                },
            }
        } else {
            return Err(DecodeError::UnknownTag);
        }
    }
}

/// One record as the grammar carries it: the tag and the parameter tokens.
#[derive(Debug, PartialEq)]
pub struct RawRecord {
    pub tag: Vec<u8>,
    pub params: Vec<Vec<u8>>,
}

impl View for RawRecord {
    type V = (Seq<u8>, Seq<Seq<u8>>);

    open spec fn view(&self) -> (Seq<u8>, Seq<Seq<u8>>) {
        (self.tag@, self.params.deep_view())
    }
}

/// Reads one whole record starting at `from`, as [`read_record_spec`] says
/// of the suffix. On success the returned position stands right after the
/// record's newline.
pub fn read_record(input: &[u8], from: usize) -> (r: Result<(RawRecord, usize), DecodeError>)
    requires
        from <= input@.len(),
    ensures
        match r {
            Ok(p) => from < p.1 <= input@.len() && read_record_spec(input@.skip(from as int))
                == Ok::<((Seq<u8>, Seq<Seq<u8>>), int), DecodeError>((p.0@, p.1 - from)),
            Err(e) => read_record_spec(input@.skip(from as int)) == Err::<
                ((Seq<u8>, Seq<Seq<u8>>), int),
                DecodeError,
            >(e),
        },
{
    let ghost suf = input@.skip(from as int);
    let n = input.len();
    if from >= n {
        assert(suf.len() == 0);
        return Err(DecodeError::UnterminatedRecord);
    }
    if input[from] != crate::escape::B_HASH {
        assert(suf[0] != crate::escape::B_HASH);
        return Err(DecodeError::UnknownTag);
    }
    assert(suf[0] == crate::escape::B_HASH);
    proof {
        assert(suf.skip(1) =~= input@.skip(from + 1));
    }
    match scan::read_token(input, from + 1) {
        Ok((tag, dpos)) => {
            proof {
                assert(scan::scan_token(suf.skip(1)) == Ok::<(Seq<u8>, int), DecodeError>(
                    (tag@, dpos - (from + 1)),
                ));
                assert(suf.skip(1 + (dpos - (from + 1))) =~= input@.skip(dpos as int));
            }
            match read_params(input, dpos) {
                Ok((params, end)) => Ok((RawRecord { tag, params }, end)),
                Err(e) => Err(e),
            }
        },
        Err(e) => Err(e),
    }
}

/// Keeps a step into a suffix of length `n` at least one byte long and
/// inside the suffix.
pub open spec fn clamp_step(v: int, n: int) -> int {
    if v < 1 {
        1
    } else if v > n {
        n
    } else {
        v
    }
}

/// What reading a whole run of `#`-headed records to the end of the input
/// yields: one tag and parameter list per record.
pub open spec fn decode_struct_spec(s: Seq<u8>) -> Result<
    Seq<(Seq<u8>, Seq<Seq<u8>>)>,
    DecodeError,
>
    decreases s.len(),
{
    if s.len() == 0 {
        Ok(Seq::empty())
    } else {
        match read_record_spec(s) {
            Ok(p) => {
                let c = clamp_step(p.1, s.len() as int);
                match decode_struct_spec(s.skip(c)) {
                    Ok(rest) => Ok(seq![p.0] + rest),
                    Err(e) => Err(e),
                }
            },
            Err(e) => Err(e),
        }
    }
}

/// The views of a sequence of raw records.
pub open spec fn records_view(rs: Seq<RawRecord>) -> Seq<(Seq<u8>, Seq<Seq<u8>>)> {
    rs.map_values(|r: RawRecord| r@)
}

/// Composes already-read records with the reading of the rest.
pub open spec fn prepend_records(
    rs: Seq<(Seq<u8>, Seq<Seq<u8>>)>,
    r: Result<Seq<(Seq<u8>, Seq<Seq<u8>>)>, DecodeError>,
) -> Result<Seq<(Seq<u8>, Seq<Seq<u8>>)>, DecodeError> {
    match r {
        Ok(rest) => Ok(rs + rest),
        Err(e) => Err(e),
    }
}

/// Reads the whole input as a run of records, as [`decode_struct_spec`]
/// says.
pub fn decode_struct(input: &[u8]) -> (r: Result<Vec<RawRecord>, DecodeError>)
    ensures
        match r {
            Ok(rs) => decode_struct_spec(input@) == Ok::<
                Seq<(Seq<u8>, Seq<Seq<u8>>)>,
                DecodeError,
            >(records_view(rs@)),
            Err(e) => decode_struct_spec(input@) == Err::<
                Seq<(Seq<u8>, Seq<Seq<u8>>)>,
                DecodeError,
            >(e),
        },
{
    let n = input.len();
    let mut recs: Vec<RawRecord> = Vec::new();
    let mut pos: usize = 0;
    proof {
        assert(input@.skip(0) =~= input@);
        assert(records_view(recs@) =~= Seq::<(Seq<u8>, Seq<Seq<u8>>)>::empty());
        match decode_struct_spec(input@) {
            Ok(rest) => {
                assert(records_view(recs@) + rest =~= rest);
            },
            Err(_) => {},
        }
    }
    while pos < n
        invariant
            0 <= pos <= n,
            n == input@.len(),
            decode_struct_spec(input@) == prepend_records(
                records_view(recs@),
                decode_struct_spec(input@.skip(pos as int)),
            ),
        decreases n - pos,
    {
        let ghost suf = input@.skip(pos as int);
        let ghost pre = records_view(recs@);
        match read_record(input, pos) {
            Ok((rec, end)) => {
                let ghost c = clamp_step(end - pos, suf.len() as int);
                proof {
                    assert(c == end - pos);
                    assert(suf.skip(c) =~= input@.skip(end as int));
                }
                let ghost rv = rec@;
                recs.push(rec);
                proof {
                    assert(records_view(recs@) =~= pre.push(rv));
                    match decode_struct_spec(input@.skip(end as int)) {
                        Ok(rest) => {
                            assert(pre + (seq![rv] + rest) =~= pre.push(rv) + rest);
                        },
                        Err(_) => {},
                    }
                }
                pos = end;
            },
            Err(e) => {
                return Err(e);
            },
        }
    }
    proof {
        assert(input@.skip(pos as int).len() == 0);
        assert(records_view(recs@) + Seq::<(Seq<u8>, Seq<Seq<u8>>)>::empty() =~= records_view(
            recs@,
        ));
    }
    Ok(recs)
}

/// One map entry as the grammar carries it: the key and the value token.
#[derive(Debug, PartialEq)]
pub struct RawEntry {
    pub key: Vec<u8>,
    pub value: Vec<u8>,
}

impl View for RawEntry {
    type V = (Seq<u8>, Seq<u8>);

    open spec fn view(&self) -> (Seq<u8>, Seq<u8>) {
        (self.key@, self.value@)
    }
}

/// What reading the indented entries of a map yields: one key and value
/// per line, each line indented exactly one unit, until a bare terminator
/// record, the end of the input, or a line that does not belong to the
/// map. An entry line with no value or more than one fails with
/// `ArityMismatch`; a line that starts with fewer than three spaces fails
/// with `IndentationMismatch`.
pub open spec fn scan_entries(s: Seq<u8>) -> Result<(Seq<(Seq<u8>, Seq<u8>)>, int), DecodeError>
    decreases s.len(),
{
    if s.len() == 0 {
        Ok((Seq::empty(), 0))
    } else if s[0] == crate::escape::B_SEMI {
        if s.len() >= 2 && s[1] == crate::escape::B_NL {
            Ok((Seq::empty(), 2))
        } else {
            Err(DecodeError::UnterminatedRecord)
        }
    } else if s[0] == crate::escape::B_SPACE {
        if s.len() >= 3 && s[1] == crate::escape::B_SPACE && s[2] == crate::escape::B_SPACE {
            match scan::scan_token(s.skip(3)) {
                Ok(k) => {
                    let kd = 3 + k.1;
                    if s[kd] == crate::escape::B_COLON {
                        match scan::scan_token(s.skip(kd + 1)) {
                            Ok(v) => {
                                let vd = kd + 1 + v.1;
                                if s[vd] == crate::escape::B_SEMI {
                                    if vd + 1 < s.len() && s[vd + 1] == crate::escape::B_NL {
                                        let c = clamp_step(vd + 2, s.len() as int);
                                        match scan_entries(s.skip(c)) {
                                            Ok(rest) => Ok(
                                                (seq![(k.0, v.0)] + rest.0, c + rest.1),
                                            ),
                                            Err(e) => Err(e),
                                        }
                                    } else {
                                        Err(DecodeError::UnterminatedRecord)
                                    }
                                } else {
                                    Err(DecodeError::ArityMismatch)
                                }
                            },
                            Err(e) => Err(e),
                        }
                    } else {
                        Err(DecodeError::ArityMismatch)
                    }
                },
                Err(e) => Err(e),
            }
        } else {
            Err(DecodeError::IndentationMismatch)
        }
    } else {
        Ok((Seq::empty(), 0))
    }
}

/// Composes already-read entries with the reading of the rest.
pub open spec fn prepend_entries(
    es: Seq<(Seq<u8>, Seq<u8>)>,
    d: int,
    r: Result<(Seq<(Seq<u8>, Seq<u8>)>, int), DecodeError>,
) -> Result<(Seq<(Seq<u8>, Seq<u8>)>, int), DecodeError> {
    match r {
        Ok(q) => Ok((es + q.0, q.1 + d)),
        Err(e) => Err(e),
    }
}

/// The views of a sequence of raw entries.
pub open spec fn entries_view(es: Seq<RawEntry>) -> Seq<(Seq<u8>, Seq<u8>)> {
    es.map_values(|e: RawEntry| e@)
}

/// Reads the indented entries of a map starting at `from`, as
/// [`scan_entries`] says of the suffix.
pub fn read_map_entries(input: &[u8], from: usize) -> (r: Result<
    (Vec<RawEntry>, usize),
    DecodeError,
>)
    requires
        from <= input@.len(),
    ensures
        match r {
            Ok(p) => from <= p.1 <= input@.len() && scan_entries(input@.skip(from as int)) == Ok::<
                (Seq<(Seq<u8>, Seq<u8>)>, int),
                DecodeError,
            >((entries_view(p.0@), p.1 - from)),
            Err(e) => scan_entries(input@.skip(from as int)) == Err::<
                (Seq<(Seq<u8>, Seq<u8>)>, int),
                DecodeError,
            >(e),
        },
{
    let n = input.len();
    let mut entries: Vec<RawEntry> = Vec::new();
    let mut pos: usize = from;
    proof {
        assert(entries_view(entries@) =~= Seq::<(Seq<u8>, Seq<u8>)>::empty());
        match scan_entries(input@.skip(from as int)) {
            Ok(q) => {
                assert(entries_view(entries@) + q.0 =~= q.0);
            },
            Err(_) => {},
        }
    }
    loop
        invariant
            from <= pos <= n,
            n == input@.len(),
            scan_entries(input@.skip(from as int)) == prepend_entries(
                entries_view(entries@),
                pos - from,
                scan_entries(input@.skip(pos as int)),
            ),
        decreases n - pos,
    {
        let ghost suf = input@.skip(pos as int);
        let ghost pre = entries_view(entries@);
        if pos >= n {
            assert(suf.len() == 0);
            proof {
                assert(pre + Seq::<(Seq<u8>, Seq<u8>)>::empty() =~= pre);
            }
            return Ok((entries, pos));
        }
        let b = input[pos];
        assert(suf[0] == b);
        if b == crate::escape::B_SEMI {
            if pos + 1 < n && input[pos + 1] == crate::escape::B_NL {
                assert(suf.len() >= 2 && suf[1] == crate::escape::B_NL);
                proof {
                    assert(pre + Seq::<(Seq<u8>, Seq<u8>)>::empty() =~= pre);
                }
                return Ok((entries, pos + 2));
            }
            assert(!(suf.len() >= 2 && suf[1] == crate::escape::B_NL));
            return Err(DecodeError::UnterminatedRecord);
        } else if b == crate::escape::B_SPACE {
            if !(n - pos > 2 && input[pos + 1] == crate::escape::B_SPACE && input[pos + 2]
                == crate::escape::B_SPACE) {
                assert(!(suf.len() >= 3 && suf[1] == crate::escape::B_SPACE && suf[2]
                    == crate::escape::B_SPACE));
                return Err(DecodeError::IndentationMismatch);
            }
            assert(suf.len() >= 3 && suf[1] == crate::escape::B_SPACE && suf[2]
                == crate::escape::B_SPACE);
            proof {
                assert(suf.skip(3) =~= input@.skip(pos + 3));
            }
            let kres = scan::read_token(input, pos + 3);
            match kres {
                Ok((key, kdpos)) => {
                    let ghost kd = 3 + (kdpos - (pos + 3));
                    assert(suf[kd] == input@[kdpos as int]);
                    if input[kdpos] != crate::escape::B_COLON {
                        return Err(DecodeError::ArityMismatch);
                    }
                    proof {
                        assert(suf.skip(kd + 1) =~= input@.skip(kdpos + 1));
                    }
                    let vres = scan::read_token(input, kdpos + 1);
                    match vres {
                        Ok((value, vdpos)) => {
                            let ghost vd = kd + 1 + (vdpos - (kdpos + 1));
                            assert(suf[vd] == input@[vdpos as int]);
                            if input[vdpos] != crate::escape::B_SEMI {
                                return Err(DecodeError::ArityMismatch);
                            }
                            if !(vdpos + 1 < n && input[vdpos + 1] == crate::escape::B_NL) {
                                assert(!(vd + 1 < suf.len() && suf[vd + 1]
                                    == crate::escape::B_NL));
                                return Err(DecodeError::UnterminatedRecord);
                            }
                            assert(vd + 1 < suf.len() && suf[vd + 1] == crate::escape::B_NL);
                            let ghost c = clamp_step(vd + 2, suf.len() as int);
                            proof {
                                assert(c == vd + 2);
                                assert(suf.skip(c) =~= input@.skip(vdpos + 2));
                            }
                            let ghost ev = (key@, value@);
                            entries.push(RawEntry { key, value });
                            proof {
                                assert(entries_view(entries@) =~= pre.push(ev));
                                match scan_entries(input@.skip(vdpos + 2)) {
                                    Ok(q) => {
                                        assert(pre + (seq![ev] + q.0) =~= pre.push(ev) + q.0);
                                    },
                                    Err(_) => {},
                                }
                            }
                            pos = vdpos + 2;
                        },
                        Err(e) => {
                            return Err(e);
                        },
                    }
                },
                Err(e) => {
                    return Err(e);
                },
            }
        } else {
            proof {
                assert(pre + Seq::<(Seq<u8>, Seq<u8>)>::empty() =~= pre);
            }
            return Ok((entries, pos));
        }
    }
}

/// What decoding a whole document that carries one bare scalar yields:
/// the first record's tag read as the declared kind, the record carrying
/// no in-line parameter.
pub open spec fn decode_root_spec(kind: ScalarKind, s: Seq<u8>) -> Result<
    ScalarValue,
    DecodeError,
> {
    match read_record_spec(s) {
        Ok(p) => if p.0.1.len() == 0 {
            decode_content(kind, p.0.0)
        } else {
            Err(DecodeError::ArityMismatch)
        },
        Err(e) => Err(e),
    }
}

/// Decodes a bare scalar at the document root, as [`decode_root_spec`]
/// says.
pub fn decode_root_scalar(kind: ScalarKind, input: &[u8]) -> (r: Result<Scalar, DecodeError>)
    ensures
        match r {
            Ok(s) => decode_root_spec(kind, input@) == Ok::<ScalarValue, DecodeError>(s@),
            Err(e) => decode_root_spec(kind, input@) == Err::<ScalarValue, DecodeError>(e),
        },
{
    proof {
        assert(input@.skip(0) =~= input@);
    }
    match read_record(input, 0) {
        Ok((rec, _end)) => {
            if rec.params.len() != 0 {
                return Err(DecodeError::ArityMismatch);
            }
            decode_scalar(kind, rec.tag.as_slice())
        },
        Err(e) => Err(e),
    }
}

/// What decoding one in-line element record yields: exactly one parameter,
/// read as the declared kind.
pub open spec fn decode_element_spec(kind: ScalarKind, s: Seq<u8>) -> Result<
    ScalarValue,
    DecodeError,
> {
    match scan_params(s) {
        Ok(q) => if q.0.len() == 1 {
            decode_content(kind, q.0[0])
        } else {
            Err(DecodeError::ArityMismatch)
        },
        Err(e) => Err(e),
    }
}

/// Decodes one in-line element record, as [`decode_element_spec`] says.
pub fn decode_element_scalar(kind: ScalarKind, input: &[u8]) -> (r: Result<Scalar, DecodeError>)
    ensures
        match r {
            Ok(s) => decode_element_spec(kind, input@) == Ok::<ScalarValue, DecodeError>(s@),
            Err(e) => decode_element_spec(kind, input@) == Err::<ScalarValue, DecodeError>(e),
        },
{
    proof {
        assert(input@.skip(0) =~= input@);
    }
    match read_params(input, 0) {
        Ok((params, _end)) => {
            if params.len() != 1 {
                return Err(DecodeError::ArityMismatch);
            }
            let r = decode_scalar(kind, params[0].as_slice());
            proof {
                assert(params.deep_view()[0] == params@[0]@);
            }
            r
        },
        Err(e) => Err(e),
    }
}

/// What decoding a list of parameter tokens under declared kinds yields.
pub open spec fn decode_params_spec(kinds: Seq<ScalarKind>, ps: Seq<Seq<u8>>) -> Result<
    Seq<ScalarValue>,
    DecodeError,
>
    recommends
        kinds.len() == ps.len(),
    decreases kinds.len(),
{
    if kinds.len() == 0 {
        Ok(Seq::empty())
    } else {
        match decode_content(kinds[0], ps[0]) {
            Ok(v) => match decode_params_spec(kinds.drop_first(), ps.drop_first()) {
                Ok(vs) => Ok(seq![v] + vs),
                Err(e) => Err(e),
            },
            Err(e) => Err(e),
        }
    }
}

/// What decoding one record of tuple elements yields: the declared number
/// of parameters, each read as its declared kind.
pub open spec fn decode_tuple_spec(kinds: Seq<ScalarKind>, s: Seq<u8>) -> Result<
    Seq<ScalarValue>,
    DecodeError,
> {
    match scan_params(s) {
        Ok(q) => if q.0.len() == kinds.len() {
            decode_params_spec(kinds, q.0)
        } else {
            Err(DecodeError::ArityMismatch)
        },
        Err(e) => Err(e),
    }
}

/// The views of a sequence of scalars.
pub open spec fn scalars_view(vs: Seq<Scalar>) -> Seq<ScalarValue> {
    vs.map_values(|v: Scalar| v@)
}

/// Composes already-decoded scalars with the decoding of the rest.
pub open spec fn prepend_scalars(
    vs: Seq<ScalarValue>,
    r: Result<Seq<ScalarValue>, DecodeError>,
) -> Result<Seq<ScalarValue>, DecodeError> {
    match r {
        Ok(rest) => Ok(vs + rest),
        Err(e) => Err(e),
    }
}

/// Decodes one record of tuple elements under the declared kinds, as
/// [`decode_tuple_spec`] says: `ArityMismatch` when the record carries
/// fewer or more parameters than kinds were declared.
pub fn decode_tuple(kinds: &[ScalarKind], input: &[u8]) -> (r: Result<Vec<Scalar>, DecodeError>)
    ensures
        match r {
            Ok(vs) => decode_tuple_spec(kinds@, input@) == Ok::<Seq<ScalarValue>, DecodeError>(
                scalars_view(vs@),
            ),
            Err(e) => decode_tuple_spec(kinds@, input@) == Err::<Seq<ScalarValue>, DecodeError>(
                e,
            ),
        },
{
    proof {
        assert(input@.skip(0) =~= input@);
    }
    let (params, _end) = match read_params(input, 0) {
        Ok(p) => p,
        Err(e) => {
            return Err(e);
        },
    };
    let n = kinds.len();
    if params.len() != n {
        return Err(DecodeError::ArityMismatch);
    }
    let ghost ps = params.deep_view();
    proof {
        assert(decode_tuple_spec(kinds@, input@) == decode_params_spec(kinds@, ps));
    }
    let mut out: Vec<Scalar> = Vec::new();
    let mut i: usize = 0;
    proof {
        assert(kinds@.skip(0) =~= kinds@);
        assert(ps.skip(0) =~= ps);
        assert(scalars_view(out@) =~= Seq::<ScalarValue>::empty());
        match decode_params_spec(kinds@, ps) {
            Ok(rest) => {
                assert(scalars_view(out@) + rest =~= rest);
            },
            Err(_) => {},
        }
    }
    while i < n
        invariant
            0 <= i <= n,
            n == kinds@.len() == ps.len(),
            ps == params.deep_view(),
            params@.len() == n,
            decode_tuple_spec(kinds@, input@) == decode_params_spec(kinds@, ps),
            decode_params_spec(kinds@, ps) == prepend_scalars(
                scalars_view(out@),
                decode_params_spec(kinds@.skip(i as int), ps.skip(i as int)),
            ),
        decreases n - i,
    {
        let ghost pre = scalars_view(out@);
        proof {
            assert(kinds@.skip(i as int)[0] == kinds@[i as int]);
            assert(ps.skip(i as int)[0] == ps[i as int]);
            assert(ps[i as int] == params@[i as int]@);
        }
        match decode_scalar(kinds[i], params[i].as_slice()) {
            Ok(v) => {
                let ghost vv = v@;
                out.push(v);
                proof {
                    assert(kinds@.skip(i as int).drop_first() =~= kinds@.skip(i + 1));
                    assert(ps.skip(i as int).drop_first() =~= ps.skip(i + 1));
                    assert(scalars_view(out@) =~= pre.push(vv));
                    match decode_params_spec(kinds@.skip(i + 1), ps.skip(i + 1)) {
                        Ok(rest) => {
                            assert(pre + (seq![vv] + rest) =~= pre.push(vv) + rest);
                        },
                        Err(_) => {},
                    }
                }
                i = i + 1;
            },
            Err(e) => {
                proof {
                    assert(kinds@.skip(i as int).len() != 0);
                    assert(decode_content(kinds@[i as int], ps[i as int]) == Err::<
                        ScalarValue,
                        DecodeError,
                    >(e));
                    assert(decode_params_spec(kinds@.skip(i as int), ps.skip(i as int)) == Err::<
                        Seq<ScalarValue>,
                        DecodeError,
                    >(e));
                    assert(decode_params_spec(kinds@, ps) == Err::<Seq<ScalarValue>, DecodeError>(
                        e,
                    ));
                }
                return Err(e);
            },
        }
    }
    proof {
        assert(kinds@.skip(n as int).len() == 0);
        assert(scalars_view(out@) + Seq::<ScalarValue>::empty() =~= scalars_view(out@));
    }
    Ok(out)
}

/// The first record of `rs` whose tag is `name`.
pub open spec fn find_record(rs: Seq<(Seq<u8>, Seq<Seq<u8>>)>, name: Seq<u8>) -> Option<
    (Seq<u8>, Seq<Seq<u8>>),
>
    decreases rs.len(),
{
    if rs.len() == 0 {
        None
    } else if rs[0].0 == name {
        Some(rs[0])
    } else {
        find_record(rs.drop_first(), name)
    }
}

/// What decoding one struct field out of a run of records yields: `None`
/// when no record carries the field's name, so that an omitted optional
/// field comes back as absent; otherwise the field's single parameter read
/// as the declared kind.
pub open spec fn decode_field_spec(s: Seq<u8>, name: Seq<u8>, kind: ScalarKind) -> Result<
    Option<ScalarValue>,
    DecodeError,
> {
    match decode_struct_spec(s) {
        Ok(rs) => match find_record(rs, name) {
            None => Ok(None),
            Some(rec) => if rec.1.len() == 1 {
                match decode_content(kind, rec.1[0]) {
                    Ok(v) => Ok(Some(v)),
                    Err(e) => Err(e),
                }
            } else {
                Err(DecodeError::ArityMismatch)
            },
        },
        Err(e) => Err(e),
    }
}

/// Decodes one struct field by name, as [`decode_field_spec`] says: an
/// omitted field comes back as `None`, never as an empty value.
pub fn decode_struct_field(input: &[u8], name: &[u8], kind: ScalarKind) -> (r: Result<
    Option<Scalar>,
    DecodeError,
>)
    ensures
        match r {
            Ok(Some(s)) => decode_field_spec(input@, name@, kind) == Ok::<
                Option<ScalarValue>,
                DecodeError,
            >(Some(s@)),
            Ok(None) => decode_field_spec(input@, name@, kind) == Ok::<
                Option<ScalarValue>,
                DecodeError,
            >(None),
            Err(e) => decode_field_spec(input@, name@, kind) == Err::<
                Option<ScalarValue>,
                DecodeError,
            >(e),
        },
{
    let recs = match decode_struct(input) {
        Ok(rs) => rs,
        Err(e) => {
            return Err(e);
        },
    };
    let ghost rsv = records_view(recs@);
    let n = recs.len();
    let mut i: usize = 0;
    proof {
        assert(rsv.skip(0) =~= rsv);
    }
    while i < n
        invariant
            0 <= i <= n,
            n == recs@.len(),
            rsv == records_view(recs@),
            decode_struct_spec(input@) == Ok::<Seq<(Seq<u8>, Seq<Seq<u8>>)>, DecodeError>(rsv),
            find_record(rsv, name@) == find_record(rsv.skip(i as int), name@),
        decreases n - i,
    {
        proof {
            assert(rsv.skip(i as int)[0] == rsv[i as int]);
            assert(rsv[i as int] == recs@[i as int]@);
        }
        if bytes_eq(recs[i].tag.as_slice(), name) {
            assert(rsv[i as int].0 == name@);
            proof {
                assert(find_record(rsv.skip(i as int), name@) == Some(rsv[i as int]));
                assert(find_record(rsv, name@) == Some(rsv[i as int]));
            }
            let rec = &recs[i];
            proof {
                assert(rsv[i as int].1 == rec.params.deep_view());
                assert(rec.params.deep_view().len() == rec.params@.len());
            }
            if rec.params.len() != 1 {
                return Err(DecodeError::ArityMismatch);
            }
            proof {
                assert(rec.params.deep_view()[0] == rec.params@[0]@);
            }
            match decode_scalar(kind, rec.params[0].as_slice()) {
                Ok(v) => {
                    return Ok(Some(v));
                },
                Err(e) => {
                    return Err(e);
                },
            }
        }
        proof {
            assert(rsv[i as int].0 != name@);
            assert(rsv.skip(i as int).drop_first() =~= rsv.skip(i + 1));
        }
        i = i + 1;
    }
    proof {
        assert(rsv.skip(n as int).len() == 0);
    }
    Ok(None)
}

} // verus!
