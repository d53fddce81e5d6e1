//! The writer for an in-line element.

use linefmt::error::Error;
use linefmt::ser::element::Serializer;

#[test]
fn element_true() {
    let mut s = Serializer::new(Vec::new());
    s.serialize_bool(true);
    assert_eq!(s.into_writer(), b":true;\n");
}

#[test]
fn element_false() {
    let mut s = Serializer::new(Vec::new());
    s.serialize_bool(false);
    assert_eq!(s.into_writer(), b":false;\n");
}

#[test]
fn element_i8() {
    let mut s = Serializer::new(Vec::new());
    s.serialize_i8(42i8);
    assert_eq!(s.into_writer(), b":42;\n");
}

#[test]
fn element_i16() {
    let mut s = Serializer::new(Vec::new());
    s.serialize_i16(42i16);
    assert_eq!(s.into_writer(), b":42;\n");
}

#[test]
fn element_i32() {
    let mut s = Serializer::new(Vec::new());
    s.serialize_i32(42i32);
    assert_eq!(s.into_writer(), b":42;\n");
}

#[test]
fn element_i64() {
    let mut s = Serializer::new(Vec::new());
    s.serialize_i64(42i64);
    assert_eq!(s.into_writer(), b":42;\n");
}

#[test]
fn element_i128() {
    let mut s = Serializer::new(Vec::new());
    s.serialize_i128(42i128);
    assert_eq!(s.into_writer(), b":42;\n");
}

#[test]
fn element_u8() {
    let mut s = Serializer::new(Vec::new());
    s.serialize_u8(42u8);
    assert_eq!(s.into_writer(), b":42;\n");
}

#[test]
fn element_u16() {
    let mut s = Serializer::new(Vec::new());
    s.serialize_u16(42u16);
    assert_eq!(s.into_writer(), b":42;\n");
}

#[test]
fn element_u32() {
    let mut s = Serializer::new(Vec::new());
    s.serialize_u32(42u32);
    assert_eq!(s.into_writer(), b":42;\n");
}

#[test]
fn element_u64() {
    let mut s = Serializer::new(Vec::new());
    s.serialize_u64(42u64);
    assert_eq!(s.into_writer(), b":42;\n");
}

#[test]
fn element_u128() {
    let mut s = Serializer::new(Vec::new());
    s.serialize_u128(42u128);
    assert_eq!(s.into_writer(), b":42;\n");
}

#[test]
fn element_i8_neg() {
    let mut s = Serializer::new(Vec::new());
    s.serialize_i8(-42i8);
    assert_eq!(s.into_writer(), b":-42;\n");
}

#[test]
fn element_i16_neg() {
    let mut s = Serializer::new(Vec::new());
    s.serialize_i16(-42i16);
    assert_eq!(s.into_writer(), b":-42;\n");
}

#[test]
fn element_i32_neg() {
    let mut s = Serializer::new(Vec::new());
    s.serialize_i32(-42i32);
    assert_eq!(s.into_writer(), b":-42;\n");
}

#[test]
fn element_i64_neg() {
    let mut s = Serializer::new(Vec::new());
    s.serialize_i64(-42i64);
    assert_eq!(s.into_writer(), b":-42;\n");
}

#[test]
fn element_i128_neg() {
    let mut s = Serializer::new(Vec::new());
    s.serialize_i128(-42i128);
    assert_eq!(s.into_writer(), b":-42;\n");
}

#[test]
fn element_f32() {
    let mut b = ryu::Buffer::new();
    let text = b.format(42f32);
    let mut s = Serializer::new(Vec::new());
    s.serialize_number(text.as_bytes());
    assert_eq!(s.into_writer(), b":42.0;\n");
}

#[test]
fn element_f64() {
    let mut b = ryu::Buffer::new();
    let text = b.format(42f64);
    let mut s = Serializer::new(Vec::new());
    s.serialize_number(text.as_bytes());
    assert_eq!(s.into_writer(), b":42.0;\n");
}

#[test]
fn element_char() {
    let mut s = Serializer::new(Vec::new());
    s.serialize_char('a');
    assert_eq!(s.into_writer(), b":a;\n");
}

#[test]
fn element_char_escape_number_sign() {
    let mut s = Serializer::new(Vec::new());
    s.serialize_char('#');
    assert_eq!(s.into_writer(), b":\\#;\n");
}

#[test]
fn element_char_escape_colon() {
    let mut s = Serializer::new(Vec::new());
    s.serialize_char(':');
    assert_eq!(s.into_writer(), b":\\:;\n");
}

#[test]
fn element_char_escape_semicolon() {
    let mut s = Serializer::new(Vec::new());
    s.serialize_char(';');
    assert_eq!(s.into_writer(), b":\\;;\n");
}

#[test]
fn element_char_escape_backslash() {
    let mut s = Serializer::new(Vec::new());
    s.serialize_char('\\');
    assert_eq!(s.into_writer(), b":\\\\;\n");
}

#[test]
fn element_char_does_not_escape_forward_slash() {
    let mut s = Serializer::new(Vec::new());
    s.serialize_char('/');
    assert_eq!(s.into_writer(), b":/;\n");
}

#[test]
fn element_str() {
    let mut s = Serializer::new(Vec::new());
    s.serialize_str("bar");
    assert_eq!(s.into_writer(), b":bar;\n");
}

#[test]
fn element_str_escape_number_sign() {
    let mut s = Serializer::new(Vec::new());
    s.serialize_str("ba#r");
    assert_eq!(s.into_writer(), b":ba\\#r;\n");
}

#[test]
fn element_str_escape_colon() {
    let mut s = Serializer::new(Vec::new());
    s.serialize_str("ba:r");
    assert_eq!(s.into_writer(), b":ba\\:r;\n");
}

#[test]
fn element_str_escape_semicolon() {
    let mut s = Serializer::new(Vec::new());
    s.serialize_str("ba;r");
    assert_eq!(s.into_writer(), b":ba\\;r;\n");
}

#[test]
fn element_str_escape_backslash() {
    let mut s = Serializer::new(Vec::new());
    s.serialize_str("ba\\r");
    assert_eq!(s.into_writer(), b":ba\\\\r;\n");
}

#[test]
fn element_str_escape_double_forwardslash() {
    let mut s = Serializer::new(Vec::new());
    s.serialize_str("ba//r");
    assert_eq!(s.into_writer(), b":ba\\/\\/r;\n");
}

#[test]
fn element_str_do_not_escape_single_forwardslash() {
    let mut s = Serializer::new(Vec::new());
    s.serialize_str("ba/r");
    assert_eq!(s.into_writer(), b":ba/r;\n");
}

#[test]
fn element_bytes() {
    let mut s = Serializer::new(Vec::new());
    s.serialize_bytes(b"bar");
    assert_eq!(s.into_writer(), b":bar;\n");
}

#[test]
fn element_bytes_escape_number_sign() {
    let mut s = Serializer::new(Vec::new());
    s.serialize_bytes(b"ba#r");
    assert_eq!(s.into_writer(), b":ba\\#r;\n");
}

#[test]
fn element_bytes_escape_colon() {
    let mut s = Serializer::new(Vec::new());
    s.serialize_bytes(b"ba:r");
    assert_eq!(s.into_writer(), b":ba\\:r;\n");
}

#[test]
fn element_bytes_escape_semicolon() {
    let mut s = Serializer::new(Vec::new());
    s.serialize_bytes(b"ba;r");
    assert_eq!(s.into_writer(), b":ba\\;r;\n");
}

#[test]
fn element_bytes_escape_backslash() {
    let mut s = Serializer::new(Vec::new());
    s.serialize_bytes(b"ba\\r");
    assert_eq!(s.into_writer(), b":ba\\\\r;\n");
}

#[test]
fn element_bytes_escape_double_forwardslash() {
    let mut s = Serializer::new(Vec::new());
    s.serialize_bytes(b"ba//r");
    assert_eq!(s.into_writer(), b":ba\\/\\/r;\n");
}

#[test]
fn element_bytes_do_not_escape_single_forwardslash() {
    let mut s = Serializer::new(Vec::new());
    s.serialize_bytes(b"ba/r");
    assert_eq!(s.into_writer(), b":ba/r;\n");
}

#[test]
fn element_none() {
    let mut s = Serializer::new(Vec::new());
    s.serialize_none();
    assert_eq!(s.into_writer(), b":;\n");
}

#[test]
fn element_some() {
    let mut s = Serializer::new(Vec::new());
    s.serialize_some();
    s.serialize_i32(42);
    assert_eq!(s.into_writer(), b":42;\n");
}

#[test]
fn element_unit() {
    let mut s = Serializer::new(Vec::new());
    s.serialize_unit();
    assert_eq!(s.into_writer(), b";\n");
}

#[test]
fn element_unit_struct() {
    let mut s = Serializer::new(Vec::new());
    s.serialize_unit_struct();
    assert_eq!(s.into_writer(), b";\n");
}

#[test]
fn element_unit_variant() {
    let mut s = Serializer::new(Vec::new());
    s.serialize_unit_variant("A");
    assert_eq!(s.into_writer(), b":A;\n");
}

#[test]
fn element_newtype_struct() {
    let mut s = Serializer::new(Vec::new());
    s.serialize_u32(42);
    assert_eq!(s.into_writer(), b":42;\n");
}

#[test]
fn newtype_variant() {
    let mut s = Serializer::new(Vec::new()).serialize_newtype_variant("Variant");
    s.serialize_u32(42);
    assert_eq!(s.into_writer(), b":Variant:42;\n");
}

#[test]
fn newtype_variant_containing_struct() {
    let s = Serializer::new(Vec::new()).serialize_newtype_variant("Variant");
    let mut st = s.serialize_struct();
    st.field_u64("foo", 42);
    st.field_str("bar", "test");
    st.field_unit("baz");
    st.field_none("qux");
    assert_eq!(st.end(), b":Variant:;\n#foo:42;\n#bar:test;\n#baz;\n");
}

#[test]
fn element_empty_tuple() {
    let t = Serializer::new(Vec::new()).serialize_tuple();
    assert_eq!(t.end(), b";\n");
}

#[test]
fn element_single_element_tuple() {
    let mut s = Serializer::new(Vec::new());
    s.serialize_i32(42);
    assert_eq!(s.into_writer(), b":42;\n");
}

#[test]
fn element_multiple_element_tuple() {
    let mut b = ryu::Buffer::new();
    let text = b.format(1.0f64);
    let mut t = Serializer::new(Vec::new()).serialize_tuple();
    t.element_i32(42);
    t.element_str("bar");
    t.element_unit();
    t.element_number(text.as_bytes());
    assert_eq!(t.end(), b":42:bar:1.0;\n");
}

#[test]
fn element_empty_tuple_struct() {
    let t = Serializer::new(Vec::new()).serialize_tuple_struct();
    assert_eq!(t.end(), b";\n");
}

#[test]
fn element_single_element_tuple_struct() {
    let mut t = Serializer::new(Vec::new()).serialize_tuple_struct();
    t.element_u64(42);
    assert_eq!(t.end(), b":42;\n");
}

#[test]
fn element_multiple_element_tuple_struct() {
    let mut b = ryu::Buffer::new();
    let text = b.format(1.0f32);
    let mut t = Serializer::new(Vec::new()).serialize_tuple_struct();
    t.element_u64(42);
    t.element_str("bar");
    t.element_unit();
    t.element_number(text.as_bytes());
    assert_eq!(t.end(), b":42:bar:1.0;\n");
}

#[test]
fn element_empty_tuple_variant() {
    let t = Serializer::new(Vec::new()).serialize_tuple_variant("Variant");
    assert_eq!(t.end(), b":Variant;\n");
}

#[test]
fn element_single_element_tuple_variant() {
    let mut t = Serializer::new(Vec::new()).serialize_tuple_variant("Variant");
    t.element_u64(42);
    assert_eq!(t.end(), b":Variant:42;\n");
}

#[test]
fn element_multiple_element_tuple_variant() {
    let mut b = ryu::Buffer::new();
    let text = b.format(1.0f32);
    let mut t = Serializer::new(Vec::new()).serialize_tuple_variant("Variant");
    t.element_u64(42);
    t.element_str("bar");
    t.element_unit();
    t.element_number(text.as_bytes());
    assert_eq!(t.end(), b":Variant:42:bar:1.0;\n");
}

#[test]
fn element_nested_tuple_variant() {
    let mut t = Serializer::new(Vec::new()).serialize_tuple_variant("Variant");
    t.element_u64(1);
    t.element_u64(2);
    t.element_u64(3);
    t.element_u64(4);
    t.element_u64(5);
    t.element_u64(6);
    t.element_u64(7);
    assert_eq!(t.end(), b":Variant:1:2:3:4:5:6:7;\n");
}

#[test]
fn empty_map() {
    let m = Serializer::new(Vec::new()).serialize_map();
    assert_eq!(m.end(), b":\n;\n");
}

#[test]
fn single_entry_map() {
    let mut m = Serializer::new(Vec::new()).serialize_map();
    m.entry_int("abc", 1);
    assert_eq!(m.end(), b":\n   abc:1;\n");
}

#[test]
fn multiple_entry_map() {
    let mut m = Serializer::new(Vec::new()).serialize_map();
    m.entry_int("abc", 1);
    m.entry_int("def", 2);
    m.entry_int("ghi", 3);
    m.entry_int("jkl", 4);
    assert_eq!(m.end(), b":\n   abc:1;\n   def:2;\n   ghi:3;\n   jkl:4;\n");
}

#[test]
fn element_struct() {
    let mut st = Serializer::new(Vec::new()).serialize_struct();
    st.field_u64("foo", 42);
    st.field_str("bar", "test");
    st.field_unit("baz");
    st.field_none("qux");
    assert_eq!(st.end(), b":;\n#foo:42;\n#bar:test;\n#baz;\n");
}

#[test]
fn struct_variant() {
    let mut st = Serializer::new(Vec::new()).serialize_struct_variant("Variant");
    st.field_u64("foo", 42);
    st.field_str("bar", "test");
    st.field_unit("baz");
    st.field_none("qux");
    assert_eq!(st.end(), b":Variant;\n#foo:42;\n#bar:test;\n#baz;\n");
}

#[test]
fn seq() {
    let mut s = Serializer::new(Vec::new());
    assert_eq!(s.serialize_seq(), Err(Error::UnsupportedType));
}

