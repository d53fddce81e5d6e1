//! The writer for a value standing as an in-line element inside a struct
//! field. Here there is always a record to terminate, so a unit and an
//! absent optional are both written as an empty parameter rather than being
//! dropped; the composites that would need a header record of their own are
//! rejected.

use vstd::prelude::*;

use crate::error::Error;
use crate::numeral::{dec_int, dec_uint, format_i128, format_u128, number_text_wf};
use crate::record::{
    bool_bytes, param_bytes, raw_param_bytes, record_close, write_bool_word, write_close,
    write_param, write_raw_param,
};
use crate::utf8::encode_char;
use vstd::string::StringSliceAdditionalSpecFns;
use vstd::utf8::encode_utf8;

verus! {

/// The writer for one in-line element inside a field.
pub struct Serializer {
    pub out: Vec<u8>,
}

impl View for Serializer {
    type V = Seq<u8>;

    open spec fn view(&self) -> Seq<u8> {
        self.out@
    }
}

impl Serializer {
    pub fn new(writer: Vec<u8>) -> (s: Serializer)
        ensures
            s@ == writer@,
    {
        Serializer { out: writer }
    }

    /// Hands the buffer back.
    pub fn into_writer(self) -> (r: Vec<u8>)
        ensures
            r@ == self@,
    {
        self.out
    }

    pub fn serialize_bool(&mut self, v: bool)
        ensures
            final(self)@ == old(self)@ + raw_param_bytes(bool_bytes(v)) + record_close(),
    {
        self.out.push(crate::escape::B_COLON);
        write_bool_word(&mut self.out, v);
        write_close(&mut self.out);
        proof {
            assert(self@ =~= old(self)@ + raw_param_bytes(bool_bytes(v)) + record_close());
        }
    }

    fn write_int(&mut self, v: i128)
        ensures
            final(self)@ == old(self)@ + raw_param_bytes(dec_int(v as int)) + record_close(),
    {
        let d = format_i128(v);
        write_raw_param(&mut self.out, d.as_slice());
        write_close(&mut self.out);
    }

    fn write_uint(&mut self, v: u128)
        ensures
            final(self)@ == old(self)@ + raw_param_bytes(dec_uint(v as nat)) + record_close(),
    {
        let d = format_u128(v);
        write_raw_param(&mut self.out, d.as_slice());
        write_close(&mut self.out);
    }

    pub fn serialize_i8(&mut self, v: i8)
        ensures
            final(self)@ == old(self)@ + raw_param_bytes(dec_int(v as int)) + record_close(),
    {
        self.write_int(v as i128);
    }

    pub fn serialize_i16(&mut self, v: i16)
        ensures
            final(self)@ == old(self)@ + raw_param_bytes(dec_int(v as int)) + record_close(),
    {
        self.write_int(v as i128);
    }

    pub fn serialize_i32(&mut self, v: i32)
        ensures
            final(self)@ == old(self)@ + raw_param_bytes(dec_int(v as int)) + record_close(),
    {
        self.write_int(v as i128);
    }

    pub fn serialize_i64(&mut self, v: i64)
        ensures
            final(self)@ == old(self)@ + raw_param_bytes(dec_int(v as int)) + record_close(),
    {
        self.write_int(v as i128);
    }

    pub fn serialize_i128(&mut self, v: i128)
        ensures
            final(self)@ == old(self)@ + raw_param_bytes(dec_int(v as int)) + record_close(),
    {
        self.write_int(v);
    }

    pub fn serialize_u8(&mut self, v: u8)
        ensures
            final(self)@ == old(self)@ + raw_param_bytes(dec_uint(v as nat)) + record_close(),
    {
        self.write_uint(v as u128);
    }

    pub fn serialize_u16(&mut self, v: u16)
        ensures
            final(self)@ == old(self)@ + raw_param_bytes(dec_uint(v as nat)) + record_close(),
    {
        self.write_uint(v as u128);
    }

    pub fn serialize_u32(&mut self, v: u32)
        ensures
            final(self)@ == old(self)@ + raw_param_bytes(dec_uint(v as nat)) + record_close(),
    {
        self.write_uint(v as u128);
    }

    pub fn serialize_u64(&mut self, v: u64)
        ensures
            final(self)@ == old(self)@ + raw_param_bytes(dec_uint(v as nat)) + record_close(),
    {
        self.write_uint(v as u128);
    }

    pub fn serialize_u128(&mut self, v: u128)
        ensures
            final(self)@ == old(self)@ + raw_param_bytes(dec_uint(v as nat)) + record_close(),
    {
        self.write_uint(v);
    }

    /// Writes number text rendered elsewhere as one element record.
    pub fn serialize_number(&mut self, text: &[u8])
        requires
            number_text_wf(text@),
        ensures
            final(self)@ == old(self)@ + raw_param_bytes(text@) + record_close(),
    {
        write_raw_param(&mut self.out, text);
        write_close(&mut self.out);
    }

    pub fn serialize_char(&mut self, v: char)
        ensures
            final(self)@ == old(self)@ + param_bytes(encode_utf8(seq![v])) + record_close(),
    {
        let enc = encode_char(v);
        write_param(&mut self.out, enc.as_slice());
        write_close(&mut self.out);
    }

    pub fn serialize_str(&mut self, v: &str)
        ensures
            final(self)@ == old(self)@ + param_bytes(v.spec_bytes()) + record_close(),
    {
        write_param(&mut self.out, v.as_bytes());
        write_close(&mut self.out);
    }

    pub fn serialize_bytes(&mut self, v: &[u8])
        ensures
            final(self)@ == old(self)@ + param_bytes(v@) + record_close(),
    {
        write_param(&mut self.out, v);
        write_close(&mut self.out);
    }

    /// An absent optional element is an empty parameter: there is a record
    /// to terminate here.
    pub fn serialize_none(&mut self)
        ensures
            final(self)@ == old(self)@ + raw_param_bytes(Seq::<u8>::empty()) + record_close(),
    {
        self.out.push(crate::escape::B_COLON);
        write_close(&mut self.out);
        proof {
            assert(self@ =~= old(self)@ + raw_param_bytes(Seq::<u8>::empty()) + record_close());
        }
    }

    /// A unit element is an empty parameter.
    pub fn serialize_unit(&mut self)
        ensures
            final(self)@ == old(self)@ + raw_param_bytes(Seq::<u8>::empty()) + record_close(),
    {
        self.out.push(crate::escape::B_COLON);
        write_close(&mut self.out);
        proof {
            assert(self@ =~= old(self)@ + raw_param_bytes(Seq::<u8>::empty()) + record_close());
        }
    }

    /// A unit struct is written as a unit.
    pub fn serialize_unit_struct(&mut self)
        ensures
            final(self)@ == old(self)@ + raw_param_bytes(Seq::<u8>::empty()) + record_close(),
    {
        self.serialize_unit();
    }

    /// A unit variant is the variant's name as one parameter.
    pub fn serialize_unit_variant(&mut self, variant: &str)
        ensures
            final(self)@ == old(self)@ + param_bytes(variant.spec_bytes()) + record_close(),
    {
        write_param(&mut self.out, variant.as_bytes());
        write_close(&mut self.out);
    }

    /// A newtype variant has no form inside a field element.
    pub fn serialize_newtype_variant(&mut self, _variant: &str) -> (r: Result<(), Error>)
        ensures
            final(self)@ == old(self)@,
            r == Err::<(), Error>(Error::UnsupportedType),
    {
        Err(Error::UnsupportedType)
    }

    /// A sequence of unknown length has no form inside a field element.
    pub fn serialize_seq(&mut self) -> (r: Result<(), Error>)
        ensures
            final(self)@ == old(self)@,
            r == Err::<(), Error>(Error::UnsupportedType),
    {
        Err(Error::UnsupportedType)
    }

    /// A map has no form inside a field element.
    pub fn serialize_map(&mut self) -> (r: Result<(), Error>)
        ensures
            final(self)@ == old(self)@,
            r == Err::<(), Error>(Error::UnsupportedType),
    {
        Err(Error::UnsupportedType)
    }

    /// A struct variant has no form inside a field element.
    pub fn serialize_struct_variant(&mut self, _variant: &str) -> (r: Result<(), Error>)
        ensures
            final(self)@ == old(self)@,
            r == Err::<(), Error>(Error::UnsupportedType),
    {
        Err(Error::UnsupportedType)
    }

    /// Begins a tuple: its elements continue this record, every element
    /// keeping a token position.
    pub fn serialize_tuple(self) -> (r: super::field_tuple::Serializer)
        ensures
            r@ == self@,
    {
        super::field_tuple::Serializer::new(self.out)
    }

    /// Begins a tuple struct: as a tuple.
    pub fn serialize_tuple_struct(self) -> (r: super::field_tuple::Serializer)
        ensures
            r@ == self@,
    {
        super::field_tuple::Serializer::new(self.out)
    }

    /// Begins a tuple variant: the variant's name, then the elements on the
    /// same record.
    pub fn serialize_tuple_variant(self, variant: &str) -> (r: super::field_tuple::Serializer)
        ensures
            r@ == self@ + param_bytes(variant.spec_bytes()),
    {
        let mut out = self.out;
        write_param(&mut out, variant.as_bytes());
        super::field_tuple::Serializer::new(out)
    }

    /// Announces a struct: an empty parameter closes this record, and the
    /// fields follow as records of their own, unit fields keeping an empty
    /// parameter as everything does on the field path.
    pub fn serialize_struct(self) -> (r: super::field_structure::Serializer)
        ensures
            r@ == self@ + seq![crate::escape::B_COLON] + record_close(),
    {
        let mut out = self.out;
        out.push(crate::escape::B_COLON);
        write_close(&mut out);
        proof {
            assert(out@ =~= self@ + seq![crate::escape::B_COLON] + record_close());
        }
        super::field_structure::Serializer::new(out)
    }
}

} // verus!
