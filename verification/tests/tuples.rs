//! The writers for element runs: tuples outside and inside struct fields.

#[test]
fn serialize_tuple_empty() {
    let t = linefmt::ser::tuple::Serializer::new(Vec::new());
    assert_eq!(t.end(), b";\n");
}

#[test]
fn serialize_tuple_single() {
    let mut t = linefmt::ser::tuple::Serializer::new(Vec::new());
    t.element_i32(42);
    assert_eq!(t.end(), b":42;\n");
}

#[test]
fn serialize_tuple_multiple() {
    let mut b = ryu::Buffer::new();
    let text = b.format(1.0f64);
    let mut t = linefmt::ser::tuple::Serializer::new(Vec::new());
    t.element_i32(42);
    t.element_str("foo");
    t.element_unit();
    t.element_number(text.as_bytes());
    assert_eq!(t.end(), b":42:foo:1.0;\n");
}

#[test]
fn serialize_tuple_struct_empty() {
    let t = linefmt::ser::tuple::Serializer::new(Vec::new());
    assert_eq!(t.end(), b";\n");
}

#[test]
fn serialize_tuple_struct_single() {
    let mut t = linefmt::ser::tuple::Serializer::new(Vec::new());
    t.element_i32(42);
    assert_eq!(t.end(), b":42;\n");
}

#[test]
fn serialize_tuple_struct_multiple() {
    let mut b = ryu::Buffer::new();
    let text = b.format(1.0f64);
    let mut t = linefmt::ser::tuple::Serializer::new(Vec::new());
    t.element_i32(42);
    t.element_str("foo");
    t.element_unit();
    t.element_number(text.as_bytes());
    assert_eq!(t.end(), b":42:foo:1.0;\n");
}

#[test]
fn serialize_tuple_variant_empty() {
    let t = linefmt::ser::tuple::Serializer::new(Vec::new());
    assert_eq!(t.end(), b";\n");
}

#[test]
fn serialize_tuple_variant_single() {
    let mut t = linefmt::ser::tuple::Serializer::new(Vec::new());
    t.element_i32(42);
    assert_eq!(t.end(), b":42;\n");
}

#[test]
fn serialize_tuple_variant_multiple() {
    let mut b = ryu::Buffer::new();
    let text = b.format(1.0f64);
    let mut t = linefmt::ser::tuple::Serializer::new(Vec::new());
    t.element_i32(42);
    t.element_str("foo");
    t.element_unit();
    t.element_number(text.as_bytes());
    assert_eq!(t.end(), b":42:foo:1.0;\n");
}

#[test]
fn empty() {
    let t = linefmt::ser::field_tuple::Serializer::new(Vec::new());
    assert_eq!(t.end(), b";\n");
}

#[test]
fn single() {
    let mut t = linefmt::ser::field_tuple::Serializer::new(Vec::new());
    t.element_i32(42);
    assert_eq!(t.end(), b":42;\n");
}

#[test]
fn multiple() {
    let mut b = ryu::Buffer::new();
    let text = b.format(1.0f64);
    let mut t = linefmt::ser::field_tuple::Serializer::new(Vec::new());
    t.element_i32(42);
    t.element_str("foo");
    t.element_unit();
    t.element_number(text.as_bytes());
    assert_eq!(t.end(), b":42:foo::1.0;\n");
}

#[test]
fn field_tuple_none_keeps_position() {
    let mut t = linefmt::ser::field_tuple::Serializer::new(Vec::new());
    t.element_i32(1);
    t.element_none();
    t.element_i32(2);
    assert_eq!(t.end(), b":1::2;\n");
}

#[test]
fn field_tuple_under_struct() {
    let st = linefmt::ser::Serializer::new(Vec::new()).serialize_struct();
    let mut t = st.field_tuple("pair");
    t.element_u64(1);
    t.element_u64(2);
    assert_eq!(t.end(), b"#pair:1:2;\n");
}

