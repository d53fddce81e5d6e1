//! The writer for a value standing as an in-line element: one `:`-led
//! parameter on a record of its own, or the announcement of a nested
//! composite that continues the record or follows it.

use vstd::prelude::*;

use crate::error::Error;
use crate::numeral::{dec_int, dec_uint, format_i128, format_u128, number_text_wf};
use crate::record::{
    bool_bytes, param_bytes, raw_param_bytes, record_close, write_bool_word, write_close,
    write_param, write_raw_param,
};
use crate::utf8::encode_char;
use vstd::string::StringSliceAdditionalSpecFns;
use vstd::utf8::encode_utf8;

verus! {

/// The writer for one in-line element.
pub struct Serializer {
    pub out: Vec<u8>,
}

impl View for Serializer {
    type V = Seq<u8>;

    open spec fn view(&self) -> Seq<u8> {
        self.out@
    }
}

impl Serializer {
    pub fn new(writer: Vec<u8>) -> (s: Serializer)
        ensures
            s@ == writer@,
    {
        Serializer { out: writer }
    }

    /// Hands the buffer back.
    pub fn into_writer(self) -> (r: Vec<u8>)
        ensures
            r@ == self@,
    {
        self.out
    }

    pub fn serialize_bool(&mut self, v: bool)
        ensures
            final(self)@ == old(self)@ + raw_param_bytes(bool_bytes(v)) + record_close(),
    {
        self.out.push(crate::escape::B_COLON);
        write_bool_word(&mut self.out, v);
        write_close(&mut self.out);
        proof {
            assert(self@ =~= old(self)@ + raw_param_bytes(bool_bytes(v)) + record_close());
        }
    }

    fn write_int(&mut self, v: i128)
        ensures
            final(self)@ == old(self)@ + raw_param_bytes(dec_int(v as int)) + record_close(),
    {
        let d = format_i128(v);
        write_raw_param(&mut self.out, d.as_slice());
        write_close(&mut self.out);
    }

    fn write_uint(&mut self, v: u128)
        ensures
            final(self)@ == old(self)@ + raw_param_bytes(dec_uint(v as nat)) + record_close(),
    {
        let d = format_u128(v);
        write_raw_param(&mut self.out, d.as_slice());
        write_close(&mut self.out);
    }

    pub fn serialize_i8(&mut self, v: i8)
        ensures
            final(self)@ == old(self)@ + raw_param_bytes(dec_int(v as int)) + record_close(),
    {
        self.write_int(v as i128);
    }

    pub fn serialize_i16(&mut self, v: i16)
        ensures
            final(self)@ == old(self)@ + raw_param_bytes(dec_int(v as int)) + record_close(),
    {
        self.write_int(v as i128);
    }

    pub fn serialize_i32(&mut self, v: i32)
        ensures
            final(self)@ == old(self)@ + raw_param_bytes(dec_int(v as int)) + record_close(),
    {
        self.write_int(v as i128);
    }

    pub fn serialize_i64(&mut self, v: i64)
        ensures
            final(self)@ == old(self)@ + raw_param_bytes(dec_int(v as int)) + record_close(),
    {
        self.write_int(v as i128);
    }

    pub fn serialize_i128(&mut self, v: i128)
        ensures
            final(self)@ == old(self)@ + raw_param_bytes(dec_int(v as int)) + record_close(),
    {
        self.write_int(v);
    }

    pub fn serialize_u8(&mut self, v: u8)
        ensures
            final(self)@ == old(self)@ + raw_param_bytes(dec_uint(v as nat)) + record_close(),
    {
        self.write_uint(v as u128);
    }

    pub fn serialize_u16(&mut self, v: u16)
        ensures
            final(self)@ == old(self)@ + raw_param_bytes(dec_uint(v as nat)) + record_close(),
    {
        self.write_uint(v as u128);
    }

    pub fn serialize_u32(&mut self, v: u32)
        ensures
            final(self)@ == old(self)@ + raw_param_bytes(dec_uint(v as nat)) + record_close(),
    {
        self.write_uint(v as u128);
    }

    pub fn serialize_u64(&mut self, v: u64)
        ensures
            final(self)@ == old(self)@ + raw_param_bytes(dec_uint(v as nat)) + record_close(),
    {
        self.write_uint(v as u128);
    }

    pub fn serialize_u128(&mut self, v: u128)
        ensures
            final(self)@ == old(self)@ + raw_param_bytes(dec_uint(v as nat)) + record_close(),
    {
        self.write_uint(v);
    }

    /// Writes number text rendered elsewhere as one element record.
    pub fn serialize_number(&mut self, text: &[u8])
        requires
            number_text_wf(text@),
        ensures
            final(self)@ == old(self)@ + raw_param_bytes(text@) + record_close(),
    {
        write_raw_param(&mut self.out, text);
        write_close(&mut self.out);
    }

    pub fn serialize_char(&mut self, v: char)
        ensures
            final(self)@ == old(self)@ + param_bytes(encode_utf8(seq![v])) + record_close(),
    {
        let enc = encode_char(v);
        write_param(&mut self.out, enc.as_slice());
        write_close(&mut self.out);
    }

    pub fn serialize_str(&mut self, v: &str)
        ensures
            final(self)@ == old(self)@ + param_bytes(v.spec_bytes()) + record_close(),
    {
        write_param(&mut self.out, v.as_bytes());
        write_close(&mut self.out);
    }

    pub fn serialize_bytes(&mut self, v: &[u8])
        ensures
            final(self)@ == old(self)@ + param_bytes(v@) + record_close(),
    {
        write_param(&mut self.out, v);
        write_close(&mut self.out);
    }

    /// An absent optional element is an empty parameter: there is always a
    /// record to terminate here.
    pub fn serialize_none(&mut self)
        ensures
            final(self)@ == old(self)@ + raw_param_bytes(Seq::<u8>::empty()) + record_close(),
    {
        self.out.push(crate::escape::B_COLON);
        write_close(&mut self.out);
        proof {
            assert(self@ =~= old(self)@ + raw_param_bytes(Seq::<u8>::empty()) + record_close());
        }
    }

    /// A present optional element is transparent: it contributes no bytes
    /// of its own, and the contained value is written next on this same
    /// writer.
    pub fn serialize_some(&mut self)
        ensures
            final(self)@ == old(self)@,
    {
    }

    /// A unit element is a record with no parameter.
    pub fn serialize_unit(&mut self)
        ensures
            final(self)@ == old(self)@ + record_close(),
    {
        write_close(&mut self.out);
    }

    /// A unit struct is written as a unit.
    pub fn serialize_unit_struct(&mut self)
        ensures
            final(self)@ == old(self)@ + record_close(),
    {
        write_close(&mut self.out);
    }

    /// A unit variant is the variant's name as one parameter.
    pub fn serialize_unit_variant(&mut self, variant: &str)
        ensures
            final(self)@ == old(self)@ + param_bytes(variant.spec_bytes()) + record_close(),
    {
        write_param(&mut self.out, variant.as_bytes());
        write_close(&mut self.out);
    }

    /// Announces a newtype variant: the variant's name as one parameter,
    /// with the record left open for the inner value.
    pub fn serialize_newtype_variant(self, variant: &str) -> (r: Serializer)
        ensures
            r@ == self@ + param_bytes(variant.spec_bytes()),
    {
        let mut out = self.out;
        write_param(&mut out, variant.as_bytes());
        Serializer { out }
    }

    /// A sequence of unknown length has no in-line form.
    pub fn serialize_seq(&mut self) -> (r: Result<(), Error>)
        ensures
            final(self)@ == old(self)@,
            r == Err::<(), Error>(Error::UnsupportedType),
    {
        Err(Error::UnsupportedType)
    }

    /// Begins a tuple: its elements continue this record.
    pub fn serialize_tuple(self) -> (r: super::tuple::Serializer)
        ensures
            r@ == self@,
    {
        super::tuple::Serializer::new(self.out)
    }

    /// Begins a tuple struct: as a tuple.
    pub fn serialize_tuple_struct(self) -> (r: super::tuple::Serializer)
        ensures
            r@ == self@,
    {
        super::tuple::Serializer::new(self.out)
    }

    /// Begins a tuple variant: the variant's name, then the elements on the
    /// same record.
    pub fn serialize_tuple_variant(self, variant: &str) -> (r: super::tuple::Serializer)
        ensures
            r@ == self@ + param_bytes(variant.spec_bytes()),
    {
        let mut out = self.out;
        write_param(&mut out, variant.as_bytes());
        super::tuple::Serializer::new(out)
    }

    /// Announces a map: an empty parameter and a newline; the entries
    /// follow, indented one unit.
    pub fn serialize_map(self) -> (r: super::map::Serializer)
        ensures
            r.out@ == self@ + seq![crate::escape::B_COLON, crate::escape::B_NL],
            r.fresh,
    {
        let mut out = self.out;
        out.push(crate::escape::B_COLON);
        out.push(crate::escape::B_NL);
        proof {
            assert(out@ =~= self@ + seq![crate::escape::B_COLON, crate::escape::B_NL]);
        }
        super::map::Serializer::new(out)
    }

    /// Announces a struct: an empty parameter closes this record, and the
    /// fields follow as records of their own.
    pub fn serialize_struct(self) -> (r: super::structure::Serializer)
        ensures
            r@ == self@ + seq![crate::escape::B_COLON] + record_close(),
    {
        let mut out = self.out;
        out.push(crate::escape::B_COLON);
        write_close(&mut out);
        proof {
            assert(out@ =~= self@ + seq![crate::escape::B_COLON] + record_close());
        }
        super::structure::Serializer::new(out)
    }

    /// Announces a struct variant: the variant's name closes this record,
    /// and the fields follow as records of their own.
    pub fn serialize_struct_variant(self, variant: &str) -> (r: super::structure::Serializer)
        ensures
            r@ == self@ + param_bytes(variant.spec_bytes()) + record_close(),
    {
        let mut out = self.out;
        write_param(&mut out, variant.as_bytes());
        write_close(&mut out);
        super::structure::Serializer::new(out)
    }
}

} // verus!
