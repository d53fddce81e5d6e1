//! The writer for the fields of a struct or struct variant: one `#`-headed
//! record per present field, and nothing at all for an absent optional
//! field.

use vstd::prelude::*;

use crate::numeral::{dec_int, dec_uint, format_i128, format_u128, number_text_wf};
use crate::record::{
    bool_bytes, param_bytes, push_bytes, raw_param_bytes, record_close, tag_bytes, write_bool_word,
    write_close, write_param, write_raw_param, write_tag,
};
use crate::utf8::encode_char;
use vstd::string::StringSliceAdditionalSpecFns;
use vstd::utf8::encode_utf8;

verus! {

/// A field record with unescaped content: `#name:content;` and a newline.
pub open spec fn field_raw_record(name: Seq<u8>, content: Seq<u8>) -> Seq<u8> {
    tag_bytes(name) + raw_param_bytes(content) + record_close()
}

/// A field record with escaped content.
pub open spec fn field_escaped_record(name: Seq<u8>, content: Seq<u8>) -> Seq<u8> {
    tag_bytes(name) + param_bytes(content) + record_close()
}

/// A field record with no parameter at all: `#name;` and a newline. This is
/// how a unit-valued field is written.
pub open spec fn field_bare_record(name: Seq<u8>) -> Seq<u8> {
    tag_bytes(name) + record_close()
}

/// The writer for struct fields.
pub struct Serializer {
    pub out: Vec<u8>,
}

impl View for Serializer {
    type V = Seq<u8>;

    open spec fn view(&self) -> Seq<u8> {
        self.out@
    }
}

impl Serializer {
    pub fn new(writer: Vec<u8>) -> (s: Serializer)
        ensures
            s@ == writer@,
    {
        Serializer { out: writer }
    }

    /// Closes the struct: nothing is written, the fields are the whole of
    /// its encoding.
    pub fn end(self) -> (r: Vec<u8>)
        ensures
            r@ == self@,
    {
        self.out
    }

    pub fn field_bool(&mut self, key: &str, v: bool)
        ensures
            final(self)@ == old(self)@ + field_raw_record(key.spec_bytes(), bool_bytes(v)),
    {
        write_tag(&mut self.out, key.as_bytes());
        self.out.push(crate::escape::B_COLON);
        write_bool_word(&mut self.out, v);
        write_close(&mut self.out);
        proof {
            assert(self@ =~= old(self)@ + field_raw_record(key.spec_bytes(), bool_bytes(v)));
        }
    }

    fn write_field_int(&mut self, key: &str, v: i128)
        ensures
            final(self)@ == old(self)@ + field_raw_record(key.spec_bytes(), dec_int(v as int)),
    {
        let d = format_i128(v);
        write_tag(&mut self.out, key.as_bytes());
        write_raw_param(&mut self.out, d.as_slice());
        write_close(&mut self.out);
        proof {
            assert(self@ =~= old(self)@ + field_raw_record(key.spec_bytes(), dec_int(v as int)));
        }
    }

    fn write_field_uint(&mut self, key: &str, v: u128)
        ensures
            final(self)@ == old(self)@ + field_raw_record(key.spec_bytes(), dec_uint(v as nat)),
    {
        let d = format_u128(v);
        write_tag(&mut self.out, key.as_bytes());
        write_raw_param(&mut self.out, d.as_slice());
        write_close(&mut self.out);
        proof {
            assert(self@ =~= old(self)@ + field_raw_record(key.spec_bytes(), dec_uint(v as nat)));
        }
    }

    pub fn field_i8(&mut self, key: &str, v: i8)
        ensures
            final(self)@ == old(self)@ + field_raw_record(key.spec_bytes(), dec_int(v as int)),
    {
        self.write_field_int(key, v as i128);
    }

    pub fn field_i16(&mut self, key: &str, v: i16)
        ensures
            final(self)@ == old(self)@ + field_raw_record(key.spec_bytes(), dec_int(v as int)),
    {
        self.write_field_int(key, v as i128);
    }

    pub fn field_i32(&mut self, key: &str, v: i32)
        ensures
            final(self)@ == old(self)@ + field_raw_record(key.spec_bytes(), dec_int(v as int)),
    {
        self.write_field_int(key, v as i128);
    }

    pub fn field_i64(&mut self, key: &str, v: i64)
        ensures
            final(self)@ == old(self)@ + field_raw_record(key.spec_bytes(), dec_int(v as int)),
    {
        self.write_field_int(key, v as i128);
    }

    pub fn field_i128(&mut self, key: &str, v: i128)
        ensures
            final(self)@ == old(self)@ + field_raw_record(key.spec_bytes(), dec_int(v as int)),
    {
        self.write_field_int(key, v);
    }

    pub fn field_u8(&mut self, key: &str, v: u8)
        ensures
            final(self)@ == old(self)@ + field_raw_record(key.spec_bytes(), dec_uint(v as nat)),
    {
        self.write_field_uint(key, v as u128);
    }

    pub fn field_u16(&mut self, key: &str, v: u16)
        ensures
            final(self)@ == old(self)@ + field_raw_record(key.spec_bytes(), dec_uint(v as nat)),
    {
        self.write_field_uint(key, v as u128);
    }

    pub fn field_u32(&mut self, key: &str, v: u32)
        ensures
            final(self)@ == old(self)@ + field_raw_record(key.spec_bytes(), dec_uint(v as nat)),
    {
        self.write_field_uint(key, v as u128);
    }

    pub fn field_u64(&mut self, key: &str, v: u64)
        ensures
            final(self)@ == old(self)@ + field_raw_record(key.spec_bytes(), dec_uint(v as nat)),
    {
        self.write_field_uint(key, v as u128);
    }

    pub fn field_u128(&mut self, key: &str, v: u128)
        ensures
            final(self)@ == old(self)@ + field_raw_record(key.spec_bytes(), dec_uint(v as nat)),
    {
        self.write_field_uint(key, v);
    }

    /// Writes a field whose number text was rendered elsewhere.
    pub fn field_number(&mut self, key: &str, text: &[u8])
        requires
            number_text_wf(text@),
        ensures
            final(self)@ == old(self)@ + field_raw_record(key.spec_bytes(), text@),
    {
        write_tag(&mut self.out, key.as_bytes());
        write_raw_param(&mut self.out, text);
        write_close(&mut self.out);
        proof {
            assert(self@ =~= old(self)@ + field_raw_record(key.spec_bytes(), text@));
        }
    }

    pub fn field_char(&mut self, key: &str, v: char)
        ensures
            final(self)@ == old(self)@ + field_escaped_record(
                key.spec_bytes(),
                encode_utf8(seq![v]),
            ),
    {
        let enc = encode_char(v);
        write_tag(&mut self.out, key.as_bytes());
        write_param(&mut self.out, enc.as_slice());
        write_close(&mut self.out);
        proof {
            assert(self@ =~= old(self)@ + field_escaped_record(
                key.spec_bytes(),
                encode_utf8(seq![v]),
            ));
        }
    }

    pub fn field_str(&mut self, key: &str, v: &str)
        ensures
            final(self)@ == old(self)@ + field_escaped_record(key.spec_bytes(), v.spec_bytes()),
    {
        write_tag(&mut self.out, key.as_bytes());
        write_param(&mut self.out, v.as_bytes());
        write_close(&mut self.out);
        proof {
            assert(self@ =~= old(self)@ + field_escaped_record(key.spec_bytes(), v.spec_bytes()));
        }
    }

    pub fn field_bytes(&mut self, key: &str, v: &[u8])
        ensures
            final(self)@ == old(self)@ + field_escaped_record(key.spec_bytes(), v@),
    {
        write_tag(&mut self.out, key.as_bytes());
        write_param(&mut self.out, v);
        write_close(&mut self.out);
        proof {
            assert(self@ =~= old(self)@ + field_escaped_record(key.spec_bytes(), v@));
        }
    }

    /// Writes a unit-valued field: the bare record `#name;` and a newline.
    pub fn field_unit(&mut self, key: &str)
        ensures
            final(self)@ == old(self)@ + field_bare_record(key.spec_bytes()),
    {
        write_tag(&mut self.out, key.as_bytes());
        write_close(&mut self.out);
        proof {
            assert(self@ =~= old(self)@ + field_bare_record(key.spec_bytes()));
        }
    }

    /// An absent optional field writes no record at all: omission, not an
    /// empty placeholder.
    pub fn field_none(&mut self, _key: &str)
        ensures
            final(self)@ == old(self)@,
    {
    }

    /// Begins a tuple-valued field: the field's header, then one parameter
    /// per element, closed by the tuple writer's `end`.
    pub fn field_tuple(self, key: &str) -> (r: super::field_tuple::Serializer)
        ensures
            r@ == self@ + tag_bytes(key.spec_bytes()),
    {
        let mut out = self.out;
        write_tag(&mut out, key.as_bytes());
        super::field_tuple::Serializer::new(out)
    }
}

} // verus!
