//! The writer for the document root.

use linefmt::error::Error;
use linefmt::ser::Serializer;

#[test]
fn mod_true() {
    let mut s = Serializer::new(Vec::new());
    s.serialize_bool(true);
    assert_eq!(s.into_writer(), b"#true;\n");
}

#[test]
fn mod_false() {
    let mut s = Serializer::new(Vec::new());
    s.serialize_bool(false);
    assert_eq!(s.into_writer(), b"#false;\n");
}

#[test]
fn mod_i8() {
    let mut s = Serializer::new(Vec::new());
    s.serialize_i8(42i8);
    assert_eq!(s.into_writer(), b"#42;\n");
}

#[test]
fn mod_i16() {
    let mut s = Serializer::new(Vec::new());
    s.serialize_i16(42i16);
    assert_eq!(s.into_writer(), b"#42;\n");
}

#[test]
fn mod_i32() {
    let mut s = Serializer::new(Vec::new());
    s.serialize_i32(42i32);
    assert_eq!(s.into_writer(), b"#42;\n");
}

#[test]
fn mod_i64() {
    let mut s = Serializer::new(Vec::new());
    s.serialize_i64(42i64);
    assert_eq!(s.into_writer(), b"#42;\n");
}

#[test]
fn mod_i128() {
    let mut s = Serializer::new(Vec::new());
    s.serialize_i128(42i128);
    assert_eq!(s.into_writer(), b"#42;\n");
}

#[test]
fn mod_u8() {
    let mut s = Serializer::new(Vec::new());
    s.serialize_u8(42u8);
    assert_eq!(s.into_writer(), b"#42;\n");
}

#[test]
fn mod_u16() {
    let mut s = Serializer::new(Vec::new());
    s.serialize_u16(42u16);
    assert_eq!(s.into_writer(), b"#42;\n");
}

#[test]
fn mod_u32() {
    let mut s = Serializer::new(Vec::new());
    s.serialize_u32(42u32);
    assert_eq!(s.into_writer(), b"#42;\n");
}

#[test]
fn mod_u64() {
    let mut s = Serializer::new(Vec::new());
    s.serialize_u64(42u64);
    assert_eq!(s.into_writer(), b"#42;\n");
}

#[test]
fn mod_u128() {
    let mut s = Serializer::new(Vec::new());
    s.serialize_u128(42u128);
    assert_eq!(s.into_writer(), b"#42;\n");
}

#[test]
fn mod_i8_neg() {
    let mut s = Serializer::new(Vec::new());
    s.serialize_i8(-42i8);
    assert_eq!(s.into_writer(), b"#-42;\n");
}

#[test]
fn mod_i16_neg() {
    let mut s = Serializer::new(Vec::new());
    s.serialize_i16(-42i16);
    assert_eq!(s.into_writer(), b"#-42;\n");
}

#[test]
fn mod_i32_neg() {
    let mut s = Serializer::new(Vec::new());
    s.serialize_i32(-42i32);
    assert_eq!(s.into_writer(), b"#-42;\n");
}

#[test]
fn mod_i64_neg() {
    let mut s = Serializer::new(Vec::new());
    s.serialize_i64(-42i64);
    assert_eq!(s.into_writer(), b"#-42;\n");
}

#[test]
fn mod_i128_neg() {
    let mut s = Serializer::new(Vec::new());
    s.serialize_i128(-42i128);
    assert_eq!(s.into_writer(), b"#-42;\n");
}

#[test]
fn mod_f32() {
    let mut b = ryu::Buffer::new();
    let text = b.format(42f32);
    let mut s = Serializer::new(Vec::new());
    assert!(linefmt::numeral::is_number_text(text.as_bytes()));
    s.serialize_number(text.as_bytes());
    assert_eq!(s.into_writer(), b"#42.0;\n");
}

#[test]
fn mod_f64() {
    let mut b = ryu::Buffer::new();
    let text = b.format(42f64);
    let mut s = Serializer::new(Vec::new());
    assert!(linefmt::numeral::is_number_text(text.as_bytes()));
    s.serialize_number(text.as_bytes());
    assert_eq!(s.into_writer(), b"#42.0;\n");
}

#[test]
fn mod_char() {
    let mut s = Serializer::new(Vec::new());
    s.serialize_char('a');
    assert_eq!(s.into_writer(), b"#a;\n");
}

#[test]
fn mod_char_escape_number_sign() {
    let mut s = Serializer::new(Vec::new());
    s.serialize_char('#');
    assert_eq!(s.into_writer(), b"#\\#;\n");
}

#[test]
fn mod_char_escape_colon() {
    let mut s = Serializer::new(Vec::new());
    s.serialize_char(':');
    assert_eq!(s.into_writer(), b"#\\:;\n");
}

#[test]
fn mod_char_escape_semicolon() {
    let mut s = Serializer::new(Vec::new());
    s.serialize_char(';');
    assert_eq!(s.into_writer(), b"#\\;;\n");
}

#[test]
fn mod_char_escape_backslash() {
    let mut s = Serializer::new(Vec::new());
    s.serialize_char('\\');
    assert_eq!(s.into_writer(), b"#\\\\;\n");
}

#[test]
fn mod_char_does_not_escape_forward_slash() {
    let mut s = Serializer::new(Vec::new());
    s.serialize_char('/');
    assert_eq!(s.into_writer(), b"#/;\n");
}

#[test]
fn newtype_struct() {
    let mut st = Serializer::new(Vec::new()).serialize_struct();
    st.field_u64("bar", 42);
    st.field_none("baz");
    st.field_str("qux", "test:test");
    assert_eq!(st.end(), b"#bar:42;\n#qux:test\\:test;\n");
}

#[test]
fn struct_empty() {
    let st = Serializer::new(Vec::new()).serialize_struct();
    assert_eq!(st.end(), b"");
}

#[test]
fn struct_single_field() {
    let mut st = Serializer::new(Vec::new()).serialize_struct();
    st.field_u64("bar", 42);
    assert_eq!(st.end(), b"#bar:42;\n");
}

#[test]
fn struct_multiple_fields() {
    let mut st = Serializer::new(Vec::new()).serialize_struct();
    st.field_u64("bar", 42);
    st.field_none("baz");
    st.field_str("qux", "test:test");
    assert_eq!(st.end(), b"#bar:42;\n#qux:test\\:test;\n");
}

#[test]
fn struct_variant_empty() {
    let st = Serializer::new(Vec::new()).serialize_struct_variant("Variant");
    assert_eq!(st.end(), b"#Variant;\n");
}

#[test]
fn struct_variant_single_field() {
    let mut st = Serializer::new(Vec::new()).serialize_struct_variant("Variant");
    st.field_u64("bar", 42);
    assert_eq!(st.end(), b"#Variant;\n#bar:42;\n");
}

#[test]
fn struct_variant_multiple_fields() {
    let mut st = Serializer::new(Vec::new()).serialize_struct_variant("Variant");
    st.field_u64("bar", 42);
    st.field_none("baz");
    st.field_str("qux", "test:test");
    assert_eq!(st.end(), b"#Variant;\n#bar:42;\n#qux:test\\:test;\n");
}

#[test]
fn root_rejects_anonymous_values() {
    let mut s = Serializer::new(Vec::new());
    assert_eq!(s.serialize_str("x"), Err(Error::UnsupportedType));
    assert_eq!(s.serialize_bytes(b"x"), Err(Error::UnsupportedType));
    assert_eq!(s.serialize_none(), Err(Error::UnsupportedType));
    assert_eq!(s.serialize_some(), Err(Error::UnsupportedType));
    assert_eq!(s.serialize_unit(), Err(Error::UnsupportedType));
    assert_eq!(s.serialize_unit_struct(), Err(Error::UnsupportedType));
    assert_eq!(s.serialize_unit_variant("A"), Err(Error::UnsupportedType));
    assert_eq!(s.serialize_newtype_variant("A"), Err(Error::UnsupportedType));
    assert_eq!(s.serialize_seq(), Err(Error::UnsupportedType));
    assert_eq!(s.serialize_tuple(), Err(Error::UnsupportedType));
    assert_eq!(s.serialize_tuple_struct(), Err(Error::UnsupportedType));
    assert_eq!(s.serialize_tuple_variant("A"), Err(Error::UnsupportedType));
    assert_eq!(s.serialize_map(), Err(Error::UnsupportedType));
    assert_eq!(s.into_writer(), b"");
}

