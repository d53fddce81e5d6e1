//! The writer for a map announced on the previous record: one entry per
//! line, each indented one unit, with the escaped key as the entry's tag
//! and the value as its parameter. A map that never receives an entry is
//! closed with a bare terminator record.
//!
//! Entries carry scalar values only: a value that would itself continue as
//! further records on deeper-indented lines is not offered here, so every
//! entry is one self-contained line.

use vstd::prelude::*;

use crate::numeral::{dec_int, dec_uint, format_i128, format_u128, number_text_wf};
use crate::escape::write_escaped;
use crate::record::{
    bool_bytes, indent_unit, param_bytes, raw_param_bytes, record_close, write_bool_word,
    write_close, write_indent, write_param, write_raw_param,
};
use crate::utf8::encode_char;
use vstd::string::StringSliceAdditionalSpecFns;
use vstd::utf8::encode_utf8;

verus! {

/// One map entry line: the indentation, the escaped key, the value as a
/// parameter, and the terminator.
pub open spec fn entry_raw_record(key: Seq<u8>, content: Seq<u8>) -> Seq<u8> {
    indent_unit() + crate::escape::escape_bytes(key) + raw_param_bytes(content) + record_close()
}

/// One map entry line whose value content is escaped.
pub open spec fn entry_escaped_record(key: Seq<u8>, content: Seq<u8>) -> Seq<u8> {
    indent_unit() + crate::escape::escape_bytes(key) + param_bytes(content) + record_close()
}

/// The writer for map entries.
pub struct Serializer {
    pub out: Vec<u8>,
    /// Whether no entry has been written yet; a fresh map still owes the
    /// terminator of its announcement record.
    pub fresh: bool,
}

impl View for Serializer {
    type V = Seq<u8>;

    open spec fn view(&self) -> Seq<u8> {
        self.out@
    }
}

impl Serializer {
    pub fn new(writer: Vec<u8>) -> (s: Serializer)
        ensures
            s@ == writer@,
            s.fresh,
    {
        Serializer { out: writer, fresh: true }
    }

    /// Ends the map: a map that received no entry is closed with a bare
    /// terminator; one with entries needs nothing more, each entry line
    /// having closed itself.
    pub fn end(self) -> (r: Vec<u8>)
        ensures
            r@ == if self.fresh {
                self.out@ + record_close()
            } else {
                self.out@
            },
    {
        let mut out = self.out;
        if self.fresh {
            write_close(&mut out);
        }
        out
    }

    pub fn entry_bool(&mut self, key: &str, v: bool)
        ensures
            final(self)@ == old(self)@ + entry_raw_record(key.spec_bytes(), bool_bytes(v)),
            !final(self).fresh,
    {
        write_indent(&mut self.out);
        write_escaped(&mut self.out, key.as_bytes());
        self.out.push(crate::escape::B_COLON);
        write_bool_word(&mut self.out, v);
        write_close(&mut self.out);
        self.fresh = false;
        proof {
            assert(self@ =~= old(self)@ + entry_raw_record(key.spec_bytes(), bool_bytes(v)));
        }
    }

    /// Writes an entry with a signed integer value.
    pub fn entry_int(&mut self, key: &str, v: i128)
        ensures
            final(self)@ == old(self)@ + entry_raw_record(key.spec_bytes(), dec_int(v as int)),
            !final(self).fresh,
    {
        let d = format_i128(v);
        write_indent(&mut self.out);
        write_escaped(&mut self.out, key.as_bytes());
        write_raw_param(&mut self.out, d.as_slice());
        write_close(&mut self.out);
        self.fresh = false;
        proof {
            assert(self@ =~= old(self)@ + entry_raw_record(key.spec_bytes(), dec_int(v as int)));
        }
    }

    /// Writes an entry with an unsigned integer value.
    pub fn entry_uint(&mut self, key: &str, v: u128)
        ensures
            final(self)@ == old(self)@ + entry_raw_record(key.spec_bytes(), dec_uint(v as nat)),
            !final(self).fresh,
    {
        let d = format_u128(v);
        write_indent(&mut self.out);
        write_escaped(&mut self.out, key.as_bytes());
        write_raw_param(&mut self.out, d.as_slice());
        write_close(&mut self.out);
        self.fresh = false;
        proof {
            assert(self@ =~= old(self)@ + entry_raw_record(key.spec_bytes(), dec_uint(v as nat)));
        }
    }

    /// Writes an entry whose value's number text was rendered elsewhere.
    pub fn entry_number(&mut self, key: &str, text: &[u8])
        requires
            number_text_wf(text@),
        ensures
            final(self)@ == old(self)@ + entry_raw_record(key.spec_bytes(), text@),
            !final(self).fresh,
    {
        write_indent(&mut self.out);
        write_escaped(&mut self.out, key.as_bytes());
        write_raw_param(&mut self.out, text);
        write_close(&mut self.out);
        self.fresh = false;
        proof {
            assert(self@ =~= old(self)@ + entry_raw_record(key.spec_bytes(), text@));
        }
    }

    pub fn entry_char(&mut self, key: &str, v: char)
        ensures
            final(self)@ == old(self)@ + entry_escaped_record(
                key.spec_bytes(),
                encode_utf8(seq![v]),
            ),
            !final(self).fresh,
    {
        let enc = encode_char(v);
        write_indent(&mut self.out);
        write_escaped(&mut self.out, key.as_bytes());
        write_param(&mut self.out, enc.as_slice());
        write_close(&mut self.out);
        self.fresh = false;
        proof {
            assert(self@ =~= old(self)@ + entry_escaped_record(
                key.spec_bytes(),
                encode_utf8(seq![v]),
            ));
        }
    }

    pub fn entry_str(&mut self, key: &str, v: &str)
        ensures
            final(self)@ == old(self)@ + entry_escaped_record(key.spec_bytes(), v.spec_bytes()),
            !final(self).fresh,
    {
        write_indent(&mut self.out);
        write_escaped(&mut self.out, key.as_bytes());
        write_param(&mut self.out, v.as_bytes());
        write_close(&mut self.out);
        self.fresh = false;
        proof {
            assert(self@ =~= old(self)@ + entry_escaped_record(
                key.spec_bytes(),
                v.spec_bytes(),
            ));
        }
    }

    pub fn entry_bytes(&mut self, key: &str, v: &[u8])
        ensures
            final(self)@ == old(self)@ + entry_escaped_record(key.spec_bytes(), v@),
            !final(self).fresh,
    {
        write_indent(&mut self.out);
        write_escaped(&mut self.out, key.as_bytes());
        write_param(&mut self.out, v);
        write_close(&mut self.out);
        self.fresh = false;
        proof {
            assert(self@ =~= old(self)@ + entry_escaped_record(key.spec_bytes(), v@));
        }
    }
}

} // verus!
