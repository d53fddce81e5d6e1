//! The decoder: scalar readers, record readers, and round trips through
//! the encoder.

use linefmt::de::{
    decode_root_scalar, decode_element_scalar, decode_scalar, decode_struct, decode_struct_field,
    decode_tuple, read_map_entries, read_record,
};
use linefmt::error::DecodeError;
use linefmt::value::{Scalar, ScalarKind};

#[test]
fn root_bool_round_trip() {
    let mut s = linefmt::ser::Serializer::new(Vec::new());
    s.serialize_bool(true);
    let bytes = s.into_writer();
    assert!(matches!(
        decode_root_scalar(ScalarKind::Bool, &bytes),
        Ok(Scalar::Bool(true))
    ));
}

#[test]
fn root_int_round_trip() {
    let mut s = linefmt::ser::Serializer::new(Vec::new());
    s.serialize_i32(-42);
    let bytes = s.into_writer();
    assert!(matches!(
        decode_root_scalar(ScalarKind::I32, &bytes),
        Ok(Scalar::I32(-42))
    ));
}

#[test]
fn root_char_round_trip() {
    let mut s = linefmt::ser::Serializer::new(Vec::new());
    s.serialize_char('\u{00e9}');
    let bytes = s.into_writer();
    assert!(matches!(
        decode_root_scalar(ScalarKind::Char, &bytes),
        Ok(Scalar::Char('\u{00e9}'))
    ));
}

#[test]
fn root_escaped_char_round_trip() {
    let mut s = linefmt::ser::Serializer::new(Vec::new());
    s.serialize_char(';');
    let bytes = s.into_writer();
    assert_eq!(bytes, b"#\\;;\n");
    assert!(matches!(
        decode_root_scalar(ScalarKind::Char, &bytes),
        Ok(Scalar::Char(';'))
    ));
}

#[test]
fn element_str_round_trip() {
    let mut s = linefmt::ser::element::Serializer::new(Vec::new());
    s.serialize_str("test:test");
    let bytes = s.into_writer();
    assert_eq!(bytes, b":test\\:test;\n");
    match decode_element_scalar(ScalarKind::Str, &bytes) {
        Ok(Scalar::Str(t)) => assert_eq!(t, "test:test"),
        other => panic!("unexpected: {:?}", other.map(|_| ())),
    }
}

#[test]
fn element_bytes_round_trip() {
    let mut s = linefmt::ser::element::Serializer::new(Vec::new());
    s.serialize_bytes(b"ba//r");
    let bytes = s.into_writer();
    match decode_element_scalar(ScalarKind::Bytes, &bytes) {
        Ok(Scalar::Bytes(t)) => assert_eq!(t, b"ba//r"),
        other => panic!("unexpected: {:?}", other.map(|_| ())),
    }
}

#[test]
fn extreme_integers_round_trip() {
    let mut s = linefmt::ser::element::Serializer::new(Vec::new());
    s.serialize_i128(i128::MIN);
    let bytes = s.into_writer();
    assert!(matches!(
        decode_element_scalar(ScalarKind::I128, &bytes),
        Ok(Scalar::I128(i128::MIN))
    ));

    let mut s = linefmt::ser::element::Serializer::new(Vec::new());
    s.serialize_u128(u128::MAX);
    let bytes = s.into_writer();
    assert!(matches!(
        decode_element_scalar(ScalarKind::U128, &bytes),
        Ok(Scalar::U128(u128::MAX))
    ));
}

#[test]
fn tuple_round_trip() {
    let mut t = linefmt::ser::tuple::Serializer::new(Vec::new());
    t.element_u8(1);
    t.element_i64(-7);
    t.element_str("x:y");
    let bytes = t.end();
    let kinds = [ScalarKind::U8, ScalarKind::I64, ScalarKind::Str];
    let vs = decode_tuple(&kinds, &bytes).unwrap();
    assert_eq!(vs.len(), 3);
    assert!(matches!(vs[0], Scalar::U8(1)));
    assert!(matches!(vs[1], Scalar::I64(-7)));
    match &vs[2] {
        Scalar::Str(s) => assert_eq!(s, "x:y"),
        other => panic!("unexpected: {:?}", other.kind()),
    }
}

#[test]
fn tuple_arity_mismatch() {
    let kinds = [ScalarKind::U8, ScalarKind::U8];
    assert_eq!(decode_tuple(&kinds, b":1;\n"), Err(DecodeError::ArityMismatch));
    assert_eq!(decode_tuple(&kinds, b":1:2:3;\n"), Err(DecodeError::ArityMismatch));
}

#[test]
fn struct_field_round_trip() {
    let mut st = linefmt::ser::Serializer::new(Vec::new()).serialize_struct();
    st.field_u64("bar", 42);
    st.field_none("baz");
    st.field_str("qux", "test:test");
    let bytes = st.end();
    assert!(matches!(
        decode_struct_field(&bytes, b"bar", ScalarKind::U64),
        Ok(Some(Scalar::U64(42)))
    ));
    match decode_struct_field(&bytes, b"qux", ScalarKind::Str) {
        Ok(Some(Scalar::Str(s))) => assert_eq!(s, "test:test"),
        other => panic!("unexpected: {:?}", other.map(|_| ())),
    }
}

#[test]
fn omitted_field_decodes_as_absent() {
    let mut st = linefmt::ser::Serializer::new(Vec::new()).serialize_struct();
    st.field_u64("bar", 42);
    st.field_none("baz");
    let bytes = st.end();
    // No line was written for `baz`, and it comes back absent, not empty.
    assert!(!bytes.windows(3).any(|w| w == b"baz"));
    assert_eq!(decode_struct_field(&bytes, b"baz", ScalarKind::Str), Ok(None));
}

#[test]
fn struct_records_in_order() {
    let recs = decode_struct(b"#a:1;\n#b:2;\n").unwrap();
    assert_eq!(recs.len(), 2);
    assert_eq!(recs[0].tag, b"a");
    assert_eq!(recs[0].params, vec![b"1".to_vec()]);
    assert_eq!(recs[1].tag, b"b");
    assert_eq!(recs[1].params, vec![b"2".to_vec()]);
}

#[test]
fn record_with_escaped_tag() {
    let (rec, end) = read_record(b"#ba\\:r:1;\n", 0).unwrap();
    assert_eq!(rec.tag, b"ba:r");
    assert_eq!(rec.params, vec![b"1".to_vec()]);
    assert_eq!(end, 10);
}

#[test]
fn map_entries_round_trip() {
    let mut m = linefmt::ser::element::Serializer::new(Vec::new()).serialize_map();
    m.entry_int("abc", 1);
    m.entry_str("k:ey", "va;lue");
    let bytes = m.end();
    let (entries, end) = read_map_entries(&bytes, 2).unwrap();
    assert_eq!(end, bytes.len());
    assert_eq!(entries.len(), 2);
    assert_eq!(entries[0].key, b"abc");
    assert_eq!(entries[0].value, b"1");
    assert_eq!(entries[1].key, b"k:ey");
    assert_eq!(entries[1].value, b"va;lue");
}

#[test]
fn empty_map_round_trip() {
    let m = linefmt::ser::element::Serializer::new(Vec::new()).serialize_map();
    let bytes = m.end();
    let (entries, end) = read_map_entries(&bytes, 2).unwrap();
    assert_eq!(entries.len(), 0);
    assert_eq!(end, bytes.len());
}

#[test]
fn map_indentation_mismatch() {
    assert_eq!(
        read_map_entries(b" abc:1;\n", 0),
        Err(DecodeError::IndentationMismatch)
    );
    assert_eq!(
        read_map_entries(b"  abc:1;\n", 0),
        Err(DecodeError::IndentationMismatch)
    );
}

#[test]
fn map_entry_without_value() {
    assert_eq!(read_map_entries(b"   abc;\n", 0), Err(DecodeError::ArityMismatch));
}

#[test]
fn scalar_invalid_number() {
    assert_eq!(decode_scalar(ScalarKind::U8, b"ab"), Err(DecodeError::InvalidNumber));
    assert_eq!(decode_scalar(ScalarKind::I8, b""), Err(DecodeError::InvalidNumber));
    assert_eq!(decode_scalar(ScalarKind::I8, b"-"), Err(DecodeError::InvalidNumber));
    assert_eq!(decode_scalar(ScalarKind::Bool, b"maybe"), Err(DecodeError::InvalidNumber));
}

#[test]
fn scalar_overflow() {
    assert_eq!(decode_scalar(ScalarKind::U8, b"300"), Err(DecodeError::Overflow));
    assert_eq!(decode_scalar(ScalarKind::I8, b"-200"), Err(DecodeError::Overflow));
    assert_eq!(
        decode_scalar(ScalarKind::U128, b"340282366920938463463374607431768211456"),
        Err(DecodeError::Overflow)
    );
    assert_eq!(
        decode_scalar(ScalarKind::I128, b"-170141183460469231731687303715884105729"),
        Err(DecodeError::Overflow)
    );
}

#[test]
fn scalar_invalid_utf8() {
    assert_eq!(decode_scalar(ScalarKind::Str, b"\xc0a"), Err(DecodeError::InvalidUtf8));
    assert_eq!(decode_scalar(ScalarKind::Char, b"ab"), Err(DecodeError::InvalidUtf8));
    assert_eq!(decode_scalar(ScalarKind::Char, b"\xe0\x80\x80"), Err(DecodeError::InvalidUtf8));
}

#[test]
fn unterminated_record() {
    assert_eq!(read_record(b"#abc", 0), Err(DecodeError::UnterminatedRecord));
    assert_eq!(read_record(b"#abc:1;", 0), Err(DecodeError::UnterminatedRecord));
}

#[test]
fn unknown_header() {
    assert_eq!(read_record(b"x:1;\n", 0), Err(DecodeError::UnknownTag));
}

#[test]
fn invalid_escape_in_token() {
    assert_eq!(read_record(b"#a\\", 0), Err(DecodeError::InvalidEscape));
}

#[test]
fn invalid_utf8_lead_in_token() {
    assert_eq!(read_record(b"#a\xffb;\n", 0), Err(DecodeError::InvalidUtf8));
}

#[test]
fn width_table_values() {
    assert_eq!(linefmt::utf8::utf8_char_width(0x41), 1);
    assert_eq!(linefmt::utf8::utf8_char_width(0x7f), 1);
    assert_eq!(linefmt::utf8::utf8_char_width(0x80), 0);
    assert_eq!(linefmt::utf8::utf8_char_width(0xc1), 0);
    assert_eq!(linefmt::utf8::utf8_char_width(0xc2), 2);
    assert_eq!(linefmt::utf8::utf8_char_width(0xdf), 2);
    assert_eq!(linefmt::utf8::utf8_char_width(0xe0), 3);
    assert_eq!(linefmt::utf8::utf8_char_width(0xef), 3);
    assert_eq!(linefmt::utf8::utf8_char_width(0xf0), 4);
    assert_eq!(linefmt::utf8::utf8_char_width(0xf4), 4);
    assert_eq!(linefmt::utf8::utf8_char_width(0xf5), 0);
    assert_eq!(linefmt::utf8::utf8_char_width(0xff), 0);
}

#[test]
fn number_text_recognition() {
    assert!(linefmt::numeral::is_number_text(b"42.0"));
    assert!(linefmt::numeral::is_number_text(b"-1.5e10"));
    assert!(linefmt::numeral::is_number_text(b"inf"));
    assert!(linefmt::numeral::is_number_text(b"NaN"));
    assert!(!linefmt::numeral::is_number_text(b""));
    assert!(!linefmt::numeral::is_number_text(b"4;2"));
}

#[test]
fn multibyte_content_is_scanned_atomically() {
    // A two-byte character whose bytes include none of the reserved ASCII
    // bytes passes through unescaped and is consumed as one character.
    let mut s = linefmt::ser::element::Serializer::new(Vec::new());
    s.serialize_str("caf\u{00e9}:x");
    let bytes = s.into_writer();
    match decode_element_scalar(ScalarKind::Str, &bytes) {
        Ok(Scalar::Str(t)) => assert_eq!(t, "caf\u{00e9}:x"),
        other => panic!("unexpected: {:?}", other.map(|_| ())),
    }
}

#[test]
fn four_byte_char_round_trip() {
    let mut s = linefmt::ser::element::Serializer::new(Vec::new());
    s.serialize_char('\u{1f600}');
    let bytes = s.into_writer();
    assert!(matches!(
        decode_element_scalar(ScalarKind::Char, &bytes),
        Ok(Scalar::Char('\u{1f600}'))
    ));
}
