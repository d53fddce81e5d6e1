//! Byte-level building blocks of a record: headers, parameters, terminators
//! and indentation, each with the exact bytes it appends.

use vstd::prelude::*;

use crate::escape::{
    escape_bytes, write_escaped, B_COLON, B_HASH, B_NL, B_SEMI, B_SPACE,
};

verus! {

/// The two bytes that terminate every record: `;` then a newline.
pub open spec fn record_close() -> Seq<u8> {
    seq![B_SEMI, B_NL]
}

/// A root or field header: `#` followed by the escaped tag.
pub open spec fn tag_bytes(name: Seq<u8>) -> Seq<u8> {
    seq![B_HASH] + escape_bytes(name)
}

/// An in-line parameter with escaped content: `:` followed by the escaped
/// bytes.
pub open spec fn param_bytes(content: Seq<u8>) -> Seq<u8> {
    seq![B_COLON] + escape_bytes(content)
}

/// An in-line parameter whose content needs no escaping and is written as
/// it stands: number texts and the `true`/`false` words.
pub open spec fn raw_param_bytes(content: Seq<u8>) -> Seq<u8> {
    seq![B_COLON] + content
}

/// The indentation of one nesting level: three spaces.
pub open spec fn indent_unit() -> Seq<u8> {
    seq![B_SPACE, B_SPACE, B_SPACE]
}

/// The word a boolean is written as.
pub open spec fn bool_bytes(v: bool) -> Seq<u8> {
    if v {
        seq![0x74u8, 0x72, 0x75, 0x65]
    } else {
        seq![0x66u8, 0x61, 0x6c, 0x73, 0x65]
    }
}

/// Appends `bytes` as they stand.
pub(crate) fn push_bytes(out: &mut Vec<u8>, bytes: &[u8])
    ensures
        final(out)@ == old(out)@ + bytes@,
{
    let n = bytes.len();
    let mut i: usize = 0;
    proof {
        assert(out@ + bytes@.subrange(0, 0) =~= out@);
    }
    while i < n
        invariant
            0 <= i <= n,
            n == bytes@.len(),
            out@ == old(out)@ + bytes@.subrange(0, i as int),
        decreases n - i,
    {
        out.push(bytes[i]);
        proof {
            assert(old(out)@ + bytes@.subrange(0, i + 1) =~= (old(out)@ + bytes@.subrange(
                0,
                i as int,
            )).push(bytes@[i as int]));
        }
        i = i + 1;
    }
    proof {
        assert(bytes@.subrange(0, n as int) =~= bytes@);
    }
}

/// Appends the record terminator `;` newline.
pub(crate) fn write_close(out: &mut Vec<u8>)
    ensures
        final(out)@ == old(out)@ + record_close(),
{
    out.push(B_SEMI);
    out.push(B_NL);
    proof {
        assert(out@ =~= old(out)@ + record_close());
    }
}

/// Appends `#` and the escaped tag.
pub(crate) fn write_tag(out: &mut Vec<u8>, name: &[u8])
    ensures
        final(out)@ == old(out)@ + tag_bytes(name@),
{
    out.push(B_HASH);
    write_escaped(out, name);
    proof {
        assert(out@ =~= old(out)@ + tag_bytes(name@));
    }
}

/// Appends `:` and the escaped content.
pub(crate) fn write_param(out: &mut Vec<u8>, content: &[u8])
    ensures
        final(out)@ == old(out)@ + param_bytes(content@),
{
    out.push(B_COLON);
    write_escaped(out, content);
    proof {
        assert(out@ =~= old(out)@ + param_bytes(content@));
    }
}

/// Appends `:` and the content as it stands.
pub(crate) fn write_raw_param(out: &mut Vec<u8>, content: &[u8])
    ensures
        final(out)@ == old(out)@ + raw_param_bytes(content@),
{
    out.push(B_COLON);
    push_bytes(out, content);
    proof {
        assert(out@ =~= old(out)@ + raw_param_bytes(content@));
    }
}

/// Appends one indentation unit.
pub(crate) fn write_indent(out: &mut Vec<u8>)
    ensures
        final(out)@ == old(out)@ + indent_unit(),
{
    out.push(B_SPACE);
    out.push(B_SPACE);
    out.push(B_SPACE);
    proof {
        assert(out@ =~= old(out)@ + indent_unit());
    }
}

/// Appends the word for `v`.
pub(crate) fn write_bool_word(out: &mut Vec<u8>, v: bool)
    ensures
        final(out)@ == old(out)@ + bool_bytes(v),
{
    if v {
        out.push(0x74);
        out.push(0x72);
        out.push(0x75);
        out.push(0x65);
    } else {
        out.push(0x66);
        out.push(0x61);
        out.push(0x6c);
        out.push(0x73);
        out.push(0x65);
    }
    proof {
        assert(out@ =~= old(out)@ + bool_bytes(v));
    }
}

} // verus!
