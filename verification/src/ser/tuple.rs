//! The writer for a run of tuple or sequence elements on one record: each
//! element is one `:`-led parameter, a unit element contributes no token at
//! all, and a single terminator is written at `end`.

use vstd::prelude::*;

use crate::numeral::{dec_int, dec_uint, format_i128, format_u128, number_text_wf};
use crate::record::{
    bool_bytes, param_bytes, raw_param_bytes, record_close, write_bool_word, write_close,
    write_param, write_raw_param,
};
use crate::utf8::encode_char;
use vstd::string::StringSliceAdditionalSpecFns;
use vstd::utf8::encode_utf8;

verus! {

/// The writer for an element run.
pub struct Serializer {
    pub out: Vec<u8>,
}

impl View for Serializer {
    type V = Seq<u8>;

    open spec fn view(&self) -> Seq<u8> {
        self.out@
    }
}

impl Serializer {
    pub fn new(writer: Vec<u8>) -> (s: Serializer)
        ensures
            s@ == writer@,
    {
        Serializer { out: writer }
    }

    /// Terminates the record that the elements share.
    pub fn end(self) -> (r: Vec<u8>)
        ensures
            r@ == self@ + record_close(),
    {
        let mut out = self.out;
        write_close(&mut out);
        out
    }

    pub fn element_bool(&mut self, v: bool)
        ensures
            final(self)@ == old(self)@ + raw_param_bytes(bool_bytes(v)),
    {
        self.out.push(crate::escape::B_COLON);
        write_bool_word(&mut self.out, v);
        proof {
            assert(self@ =~= old(self)@ + raw_param_bytes(bool_bytes(v)));
        }
    }

    fn write_element_int(&mut self, v: i128)
        ensures
            final(self)@ == old(self)@ + raw_param_bytes(dec_int(v as int)),
    {
        let d = format_i128(v);
        write_raw_param(&mut self.out, d.as_slice());
    }

    fn write_element_uint(&mut self, v: u128)
        ensures
            final(self)@ == old(self)@ + raw_param_bytes(dec_uint(v as nat)),
    {
        let d = format_u128(v);
        write_raw_param(&mut self.out, d.as_slice());
    }

    pub fn element_i8(&mut self, v: i8)
        ensures
            final(self)@ == old(self)@ + raw_param_bytes(dec_int(v as int)),
    {
        self.write_element_int(v as i128);
    }

    pub fn element_i16(&mut self, v: i16)
        ensures
            final(self)@ == old(self)@ + raw_param_bytes(dec_int(v as int)),
    {
        self.write_element_int(v as i128);
    }

    pub fn element_i32(&mut self, v: i32)
        ensures
            final(self)@ == old(self)@ + raw_param_bytes(dec_int(v as int)),
    {
        self.write_element_int(v as i128);
    }

    pub fn element_i64(&mut self, v: i64)
        ensures
            final(self)@ == old(self)@ + raw_param_bytes(dec_int(v as int)),
    {
        self.write_element_int(v as i128);
    }

    pub fn element_i128(&mut self, v: i128)
        ensures
            final(self)@ == old(self)@ + raw_param_bytes(dec_int(v as int)),
    {
        self.write_element_int(v);
    }

    pub fn element_u8(&mut self, v: u8)
        ensures
            final(self)@ == old(self)@ + raw_param_bytes(dec_uint(v as nat)),
    {
        self.write_element_uint(v as u128);
    }

    pub fn element_u16(&mut self, v: u16)
        ensures
            final(self)@ == old(self)@ + raw_param_bytes(dec_uint(v as nat)),
    {
        self.write_element_uint(v as u128);
    }

    pub fn element_u32(&mut self, v: u32)
        ensures
            final(self)@ == old(self)@ + raw_param_bytes(dec_uint(v as nat)),
    {
        self.write_element_uint(v as u128);
    }

    pub fn element_u64(&mut self, v: u64)
        ensures
            final(self)@ == old(self)@ + raw_param_bytes(dec_uint(v as nat)),
    {
        self.write_element_uint(v as u128);
    }

    pub fn element_u128(&mut self, v: u128)
        ensures
            final(self)@ == old(self)@ + raw_param_bytes(dec_uint(v as nat)),
    {
        self.write_element_uint(v);
    }

    /// Writes an element whose number text was rendered elsewhere.
    pub fn element_number(&mut self, text: &[u8])
        requires
            number_text_wf(text@),
        ensures
            final(self)@ == old(self)@ + raw_param_bytes(text@),
    {
        write_raw_param(&mut self.out, text);
    }

    pub fn element_char(&mut self, v: char)
        ensures
            final(self)@ == old(self)@ + param_bytes(encode_utf8(seq![v])),
    {
        let enc = encode_char(v);
        write_param(&mut self.out, enc.as_slice());
    }

    pub fn element_str(&mut self, v: &str)
        ensures
            final(self)@ == old(self)@ + param_bytes(v.spec_bytes()),
    {
        write_param(&mut self.out, v.as_bytes());
    }

    pub fn element_bytes(&mut self, v: &[u8])
        ensures
            final(self)@ == old(self)@ + param_bytes(v@),
    {
        write_param(&mut self.out, v);
    }

    /// A unit element contributes no token between the colons.
    pub fn element_unit(&mut self)
        ensures
            final(self)@ == old(self)@,
    {
    }
}

} // verus!
