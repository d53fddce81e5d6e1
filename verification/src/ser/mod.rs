//! The encoder: one writer per context, each bound to the output buffer for
//! its scope and each with an exact contract for the bytes it appends.
//!
//! The root writer in this module accepts a bare scalar or a struct; an
//! anonymous collection at the document root is rejected with
//! [`Error::UnsupportedType`], so that a reader can always tell at the first
//! byte what shape to expect.

pub mod element;
pub mod field_element;
pub mod field_structure;
pub mod field_tuple;
pub mod map;
pub mod structure;
pub mod tuple;

use vstd::prelude::*;

use crate::error::Error;
use crate::escape::{escape_bytes, write_escaped};
use crate::numeral::{dec_int, dec_uint, format_i128, format_u128, number_text_wf};
use crate::record::{
    bool_bytes, record_close, tag_bytes, write_bool_word, write_close, write_tag,
};
use vstd::string::StringSliceAdditionalSpecFns;
use crate::utf8::encode_char;
use vstd::utf8::encode_utf8;

verus! {

/// A root record with unescaped content: `#`, the content, `;`, newline.
pub open spec fn root_raw_record(content: Seq<u8>) -> Seq<u8> {
    seq![crate::escape::B_HASH] + content + record_close()
}

/// A root record with escaped content.
pub open spec fn root_escaped_record(content: Seq<u8>) -> Seq<u8> {
    seq![crate::escape::B_HASH] + escape_bytes(content) + record_close()
}

/// The writer for the document root.
pub struct Serializer {
    pub out: Vec<u8>,
}

impl View for Serializer {
    type V = Seq<u8>;

    open spec fn view(&self) -> Seq<u8> {
        self.out@
    }
}

impl Serializer {
    /// A root writer that appends to `writer`.
    pub fn new(writer: Vec<u8>) -> (s: Serializer)
        ensures
            s@ == writer@,
    {
        Serializer { out: writer }
    }

    /// Hands the buffer back.
    pub fn into_writer(self) -> (r: Vec<u8>)
        ensures
            r@ == self@,
    {
        self.out
    }

    /// Writes a boolean as a root record: `#true;` or `#false;`.
    pub fn serialize_bool(&mut self, v: bool)
        ensures
            final(self)@ == old(self)@ + root_raw_record(bool_bytes(v)),
    {
        self.out.push(crate::escape::B_HASH);
        write_bool_word(&mut self.out, v);
        write_close(&mut self.out);
        proof {
            assert(self@ =~= old(self)@ + root_raw_record(bool_bytes(v)));
        }
    }

    /// Writes a signed integer as a root record in canonical decimal.
    fn write_root_int(&mut self, v: i128)
        ensures
            final(self)@ == old(self)@ + root_raw_record(dec_int(v as int)),
    {
        let d = format_i128(v);
        self.out.push(crate::escape::B_HASH);
        crate::record::push_bytes(&mut self.out, d.as_slice());
        write_close(&mut self.out);
        proof {
            assert(self@ =~= old(self)@ + root_raw_record(dec_int(v as int)));
        }
    }

    /// Writes an unsigned integer as a root record in canonical decimal.
    fn write_root_uint(&mut self, v: u128)
        ensures
            final(self)@ == old(self)@ + root_raw_record(dec_uint(v as nat)),
    {
        let d = format_u128(v);
        self.out.push(crate::escape::B_HASH);
        crate::record::push_bytes(&mut self.out, d.as_slice());
        write_close(&mut self.out);
        proof {
            assert(self@ =~= old(self)@ + root_raw_record(dec_uint(v as nat)));
        }
    }

    pub fn serialize_i8(&mut self, v: i8)
        ensures
            final(self)@ == old(self)@ + root_raw_record(dec_int(v as int)),
    {
        self.write_root_int(v as i128);
    }

    pub fn serialize_i16(&mut self, v: i16)
        ensures
            final(self)@ == old(self)@ + root_raw_record(dec_int(v as int)),
    {
        self.write_root_int(v as i128);
    }

    pub fn serialize_i32(&mut self, v: i32)
        ensures
            final(self)@ == old(self)@ + root_raw_record(dec_int(v as int)),
    {
        self.write_root_int(v as i128);
    }

    pub fn serialize_i64(&mut self, v: i64)
        ensures
            final(self)@ == old(self)@ + root_raw_record(dec_int(v as int)),
    {
        self.write_root_int(v as i128);
    }

    pub fn serialize_i128(&mut self, v: i128)
        ensures
            final(self)@ == old(self)@ + root_raw_record(dec_int(v as int)),
    {
        self.write_root_int(v);
    }

    pub fn serialize_u8(&mut self, v: u8)
        ensures
            final(self)@ == old(self)@ + root_raw_record(dec_uint(v as nat)),
    {
        self.write_root_uint(v as u128);
    }

    pub fn serialize_u16(&mut self, v: u16)
        ensures
            final(self)@ == old(self)@ + root_raw_record(dec_uint(v as nat)),
    {
        self.write_root_uint(v as u128);
    }

    pub fn serialize_u32(&mut self, v: u32)
        ensures
            final(self)@ == old(self)@ + root_raw_record(dec_uint(v as nat)),
    {
        self.write_root_uint(v as u128);
    }

    pub fn serialize_u64(&mut self, v: u64)
        ensures
            final(self)@ == old(self)@ + root_raw_record(dec_uint(v as nat)),
    {
        self.write_root_uint(v as u128);
    }

    pub fn serialize_u128(&mut self, v: u128)
        ensures
            final(self)@ == old(self)@ + root_raw_record(dec_uint(v as nat)),
    {
        self.write_root_uint(v);
    }

    /// Writes number text rendered elsewhere (a float's shortest
    /// round-trip decimal) as a root record.
    pub fn serialize_number(&mut self, text: &[u8])
        requires
            number_text_wf(text@),
        ensures
            final(self)@ == old(self)@ + root_raw_record(text@),
    {
        self.out.push(crate::escape::B_HASH);
        crate::record::push_bytes(&mut self.out, text);
        write_close(&mut self.out);
        proof {
            assert(self@ =~= old(self)@ + root_raw_record(text@));
        }
    }

    /// Writes a character as a root record, escaped.
    pub fn serialize_char(&mut self, v: char)
        ensures
            final(self)@ == old(self)@ + root_escaped_record(encode_utf8(seq![v])),
    {
        let enc = encode_char(v);
        self.out.push(crate::escape::B_HASH);
        write_escaped(&mut self.out, enc.as_slice());
        write_close(&mut self.out);
        proof {
            assert(self@ =~= old(self)@ + root_escaped_record(encode_utf8(seq![v])));
        }
    }

    /// A string cannot stand alone at the document root.
    pub fn serialize_str(&mut self, _v: &str) -> (r: Result<(), Error>)
        ensures
            final(self)@ == old(self)@,
            r == Err::<(), Error>(Error::UnsupportedType),
    {
        Err(Error::UnsupportedType)
    }

    /// A byte string cannot stand alone at the document root.
    pub fn serialize_bytes(&mut self, _v: &[u8]) -> (r: Result<(), Error>)
        ensures
            final(self)@ == old(self)@,
            r == Err::<(), Error>(Error::UnsupportedType),
    {
        Err(Error::UnsupportedType)
    }

    /// An absent option cannot stand alone at the document root.
    pub fn serialize_none(&mut self) -> (r: Result<(), Error>)
        ensures
            final(self)@ == old(self)@,
            r == Err::<(), Error>(Error::UnsupportedType),
    {
        Err(Error::UnsupportedType)
    }

    /// A present option cannot stand alone at the document root.
    pub fn serialize_some(&mut self) -> (r: Result<(), Error>)
        ensures
            final(self)@ == old(self)@,
            r == Err::<(), Error>(Error::UnsupportedType),
    {
        Err(Error::UnsupportedType)
    }

    /// A unit cannot stand alone at the document root.
    pub fn serialize_unit(&mut self) -> (r: Result<(), Error>)
        ensures
            final(self)@ == old(self)@,
            r == Err::<(), Error>(Error::UnsupportedType),
    {
        Err(Error::UnsupportedType)
    }

    /// A unit struct cannot stand alone at the document root.
    pub fn serialize_unit_struct(&mut self) -> (r: Result<(), Error>)
        ensures
            final(self)@ == old(self)@,
            r == Err::<(), Error>(Error::UnsupportedType),
    {
        Err(Error::UnsupportedType)
    }

    /// A unit variant cannot stand alone at the document root.
    pub fn serialize_unit_variant(&mut self, _variant: &str) -> (r: Result<(), Error>)
        ensures
            final(self)@ == old(self)@,
            r == Err::<(), Error>(Error::UnsupportedType),
    {
        Err(Error::UnsupportedType)
    }

    /// A newtype variant cannot stand alone at the document root.
    pub fn serialize_newtype_variant(&mut self, _variant: &str) -> (r: Result<(), Error>)
        ensures
            final(self)@ == old(self)@,
            r == Err::<(), Error>(Error::UnsupportedType),
    {
        Err(Error::UnsupportedType)
    }

    /// A sequence cannot stand at the document root.
    pub fn serialize_seq(&mut self) -> (r: Result<(), Error>)
        ensures
            final(self)@ == old(self)@,
            r == Err::<(), Error>(Error::UnsupportedType),
    {
        Err(Error::UnsupportedType)
    }

    /// A tuple cannot stand at the document root.
    pub fn serialize_tuple(&mut self) -> (r: Result<(), Error>)
        ensures
            final(self)@ == old(self)@,
            r == Err::<(), Error>(Error::UnsupportedType),
    {
        Err(Error::UnsupportedType)
    }

    /// A tuple struct cannot stand at the document root.
    pub fn serialize_tuple_struct(&mut self) -> (r: Result<(), Error>)
        ensures
            final(self)@ == old(self)@,
            r == Err::<(), Error>(Error::UnsupportedType),
    {
        Err(Error::UnsupportedType)
    }

    /// A tuple variant cannot stand at the document root.
    pub fn serialize_tuple_variant(&mut self, _variant: &str) -> (r: Result<(), Error>)
        ensures
            final(self)@ == old(self)@,
            r == Err::<(), Error>(Error::UnsupportedType),
    {
        Err(Error::UnsupportedType)
    }

    /// A map cannot stand at the document root.
    pub fn serialize_map(&mut self) -> (r: Result<(), Error>)
        ensures
            final(self)@ == old(self)@,
            r == Err::<(), Error>(Error::UnsupportedType),
    {
        Err(Error::UnsupportedType)
    }

    /// Begins a struct at the root: nothing is written until a field is.
    pub fn serialize_struct(self) -> (r: structure::Serializer)
        ensures
            r@ == self@,
    {
        structure::Serializer::new(self.out)
    }

    /// Begins a struct variant at the root: a header record with the
    /// variant's name, then the fields.
    pub fn serialize_struct_variant(self, variant: &str) -> (r: structure::Serializer)
        ensures
            r@ == self@ + tag_bytes(variant.spec_bytes()) + record_close(),
    {
        let mut out = self.out;
        write_tag(&mut out, variant.as_bytes());
        write_close(&mut out);
        structure::Serializer::new(out)
    }
}

} // verus!
