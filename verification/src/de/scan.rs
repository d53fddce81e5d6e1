//! The lexical scanner: reads one token from a raw byte cursor, resolving
//! escapes as it goes and consuming multi-byte characters atomically, so
//! that a reserved ASCII byte inside a multi-byte character is never taken
//! for a delimiter.

use vstd::prelude::*;

use crate::error::DecodeError;
use crate::escape::{escape_from, is_reserved, B_BSLASH, B_COLON, B_SEMI, B_SLASH};
use crate::utf8::{lemma_width_of_first_scalar, utf8_char_width, utf8_width};
use vstd::utf8::{
    is_continuation_byte, length_of_first_scalar, pop_first_scalar, valid_first_scalar, valid_utf8,
};

verus! {

/// What reading one token from the head of `s` yields: the token with its
/// escapes resolved and the number of bytes consumed, the next byte then
/// being the unescaped `:` or `;` that stopped the scan. The errors are
/// `UnterminatedRecord` when the input ends first, `InvalidEscape` for a
/// trailing `\`, and `InvalidUtf8` for a byte that cannot lead a character.
pub open spec fn scan_token(s: Seq<u8>) -> Result<(Seq<u8>, int), DecodeError>
    decreases s.len(),
{
    if s.len() == 0 {
        Err(DecodeError::UnterminatedRecord)
    } else if s[0] == B_COLON || s[0] == B_SEMI {
        Ok((Seq::empty(), 0))
    } else if s[0] == B_BSLASH {
        if s.len() == 1 {
            Err(DecodeError::InvalidEscape)
        } else {
            match scan_token(s.skip(2)) {
                Ok(p) => Ok((seq![s[1]] + p.0, p.1 + 2)),
                Err(e) => Err(e),
            }
        }
    } else if s[0] < 0x80 {
        match scan_token(s.skip(1)) {
            Ok(p) => Ok((seq![s[0]] + p.0, p.1 + 1)),
            Err(e) => Err(e),
        }
    } else {
        let w = utf8_width(s[0]);
        if w == 0 {
            Err(DecodeError::InvalidUtf8)
        } else if s.len() < w {
            Err(DecodeError::UnterminatedRecord)
        } else {
            match scan_token(s.skip(w)) {
                Ok(p) => Ok((s.subrange(0, w) + p.0, p.1 + w)),
                Err(e) => Err(e),
            }
        }
    }
}

/// Composes a scanned prefix with the scan of the rest.
pub open spec fn prepend_scan(p: Seq<u8>, d: int, r: Result<(Seq<u8>, int), DecodeError>) -> Result<
    (Seq<u8>, int),
    DecodeError,
> {
    match r {
        Ok(q) => Ok((p + q.0, q.1 + d)),
        Err(e) => Err(e),
    }
}

proof fn lemma_prepend_scan_empty(r: Result<(Seq<u8>, int), DecodeError>)
    ensures
        prepend_scan(Seq::empty(), 0, r) == r,
{
    match r {
        Ok(q) => {
            assert(Seq::empty() + q.0 =~= q.0);
        },
        Err(_) => {},
    }
}

proof fn lemma_prepend_scan_assoc(
    p: Seq<u8>,
    d1: int,
    q: Seq<u8>,
    d2: int,
    r: Result<(Seq<u8>, int), DecodeError>,
)
    ensures
        prepend_scan(p, d1, prepend_scan(q, d2, r)) == prepend_scan(p + q, d1 + d2, r),
{
    match r {
        Ok(t) => {
            assert(p + (q + t.0) =~= (p + q) + t.0);
        },
        Err(_) => {},
    }
}

/// Reads one token of `input` starting at `from`, as [`scan_token`] says of
/// the suffix that starts there. On success the returned position is that
/// of the delimiter that stopped the scan.
pub fn read_token(input: &[u8], from: usize) -> (r: Result<(Vec<u8>, usize), DecodeError>)
    requires
        from <= input@.len(),
    ensures
        match r {
            Ok(p) => from <= p.1 < input@.len() && scan_token(input@.skip(from as int)) == Ok::<
                (Seq<u8>, int),
                DecodeError,
            >((p.0@, p.1 - from)) && (input@[p.1 as int] == B_COLON || input@[p.1 as int]
                == B_SEMI),
            Err(e) => scan_token(input@.skip(from as int)) == Err::<(Seq<u8>, int), DecodeError>(
                e,
            ),
        },
{
    let ghost whole = input@.skip(from as int);
    let n = input.len();
    let mut tok: Vec<u8> = Vec::new();
    let mut i: usize = from;
    proof {
        lemma_prepend_scan_empty(scan_token(whole));
        assert(tok@ =~= Seq::<u8>::empty());
    }
    while i < n
        invariant
            from <= i <= n,
            n == input@.len(),
            whole == input@.skip(from as int),
            scan_token(whole) == prepend_scan(tok@, i - from, scan_token(input@.skip(i as int))),
        decreases n - i,
    {
        let ghost suf = input@.skip(i as int);
        let ghost pre = tok@;
        let b = input[i];
        assert(suf[0] == b);
        if b == B_COLON || b == B_SEMI {
            assert(scan_token(suf) == Ok::<(Seq<u8>, int), DecodeError>((Seq::empty(), 0)));
            proof {
                assert(pre + Seq::<u8>::empty() =~= pre);
            }
            return Ok((tok, i));
        } else if b == B_BSLASH {
            if n - i == 1 {
                assert(suf.len() == 1);
                return Err(DecodeError::InvalidEscape);
            }
            tok.push(input[i + 1]);
            proof {
                assert(suf.skip(2) =~= input@.skip(i + 2));
                assert(pre + seq![suf[1]] =~= tok@);
                lemma_prepend_scan_assoc(
                    pre,
                    i - from,
                    seq![suf[1]],
                    2,
                    scan_token(input@.skip(i + 2)),
                );
            }
            i = i + 2;
        } else if b < 0x80 {
            tok.push(b);
            proof {
                assert(suf.skip(1) =~= input@.skip(i + 1));
                assert(pre + seq![suf[0]] =~= tok@);
                lemma_prepend_scan_assoc(
                    pre,
                    i - from,
                    seq![suf[0]],
                    1,
                    scan_token(input@.skip(i + 1)),
                );
            }
            i = i + 1;
        } else {
            let w = utf8_char_width(b) as usize;
            if w == 0 {
                return Err(DecodeError::InvalidUtf8);
            }
            if n - i < w {
                assert(suf.len() < utf8_width(suf[0]));
                return Err(DecodeError::UnterminatedRecord);
            }
            let mut k: usize = 0;
            while k < w
                invariant
                    0 <= k <= w,
                    i + w <= n,
                    n == input@.len(),
                    tok@ == pre + input@.subrange(i as int, i + k),
                decreases w - k,
            {
                tok.push(input[i + k]);
                proof {
                    assert(pre + input@.subrange(i as int, i + k + 1) =~= (pre + input@.subrange(
                        i as int,
                        i + k,
                    )).push(input@[i + k]));
                }
                k = k + 1;
            }
            proof {
                assert(suf.skip(utf8_width(suf[0])) =~= input@.skip(i + w));
                assert(suf.subrange(0, utf8_width(suf[0])) =~= input@.subrange(i as int, i + w));
                lemma_prepend_scan_assoc(
                    pre,
                    i - from,
                    input@.subrange(i as int, i + w),
                    w as int,
                    scan_token(input@.skip(i + w)),
                );
            }
            i = i + w;
        }
    }
    proof {
        assert(input@.skip(i as int).len() == 0);
    }
    Err(DecodeError::UnterminatedRecord)
}

/// Escaping leaves a stretch of bytes at or above `0x80` untouched.
proof fn lemma_escape_passthrough_high(s: Seq<u8>, i: int, j: int)
    requires
        0 <= i <= j <= s.len(),
        forall|k: int| i <= k < j ==> #[trigger] s[k] >= 0x80,
    ensures
        escape_from(s, i) == s.subrange(i, j) + escape_from(s, j),
    decreases j - i,
{
    if i == j {
        assert(s.subrange(i, j) =~= Seq::<u8>::empty());
        assert(s.subrange(i, j) + escape_from(s, j) =~= escape_from(s, j));
    } else {
        assert(s[i] >= 0x80);
        assert(!is_reserved(s[i]) && s[i] != B_SLASH);
        assert(!crate::escape::needs_escape_at(s, i));
        lemma_escape_passthrough_high(s, i + 1, j);
        assert(seq![s[i]] + (s.subrange(i + 1, j) + escape_from(s, j)) =~= s.subrange(i, j)
            + escape_from(s, j));
    }
}

/// The scanner inverts the escape engine: on the escaped form of UTF-8
/// content followed by a delimiter, it returns exactly that content and
/// stops on the delimiter.
pub proof fn lemma_scan_of_escaped(s: Seq<u8>, i: int, tail: Seq<u8>)
    requires
        0 <= i <= s.len(),
        valid_utf8(s.skip(i)),
        tail.len() > 0,
        tail[0] == B_COLON || tail[0] == B_SEMI,
    ensures
        scan_token(escape_from(s, i) + tail) == Ok::<(Seq<u8>, int), DecodeError>(
            (s.skip(i), escape_from(s, i).len() as int),
        ),
    decreases s.len() - i,
{
    let suf = s.skip(i);
    if i == s.len() {
        assert(escape_from(s, i) + tail =~= tail);
        assert(suf =~= Seq::<u8>::empty());
    } else {
        assert(valid_first_scalar(suf));
        assert(suf[0] == s[i]);
        if s[i] < 0x80 {
            assert(vstd::utf8::is_leading_byte_width_1(suf[0]));
            assert(length_of_first_scalar(suf) == 1);
            assert(pop_first_scalar(suf) =~= s.skip(i + 1));
            lemma_scan_of_escaped(s, i + 1, tail);
            if crate::escape::needs_escape_at(s, i) {
                let x = escape_from(s, i) + tail;
                assert(x[0] == B_BSLASH);
                assert(x.len() >= 2);
                assert(x.skip(2) =~= escape_from(s, i + 1) + tail);
                assert(x[1] == s[i]);
                assert(seq![s[i]] + s.skip(i + 1) =~= s.skip(i));
            } else {
                let x = escape_from(s, i) + tail;
                assert(x[0] == s[i]);
                assert(!is_reserved(s[i]));
                assert(s[i] != B_COLON && s[i] != B_SEMI && s[i] != B_BSLASH);
                assert(x.skip(1) =~= escape_from(s, i + 1) + tail);
                assert(seq![s[i]] + s.skip(i + 1) =~= s.skip(i));
            }
        } else {
            lemma_width_of_first_scalar(suf);
            let w = length_of_first_scalar(suf);
            assert(utf8_width(s[i]) == w);
            assert(2 <= w <= 4) by {
                assert(!vstd::utf8::is_leading_byte_width_1(suf[0]));
            }
            assert(forall|k: int| i <= k < i + w ==> #[trigger] s[k] >= 0x80) by {
                assert(forall|j: int|
                    1 <= j < w ==> is_continuation_byte(#[trigger] suf[j]) && suf[j] == s[i + j]);
            }
            lemma_escape_passthrough_high(s, i, i + w);
            assert(pop_first_scalar(suf) =~= s.skip(i + w));
            lemma_scan_of_escaped(s, i + w, tail);
            let x = escape_from(s, i) + tail;
            assert(x[0] == s[i]);
            assert(x.len() == w + escape_from(s, i + w).len() + tail.len());
            assert(x.skip(w) =~= escape_from(s, i + w) + tail);
            assert(x.subrange(0, w) =~= s.subrange(i, i + w));
            assert(s.subrange(i, i + w) + s.skip(i + w) =~= s.skip(i));
        }
    }
}

/// On escaped UTF-8 content followed by a delimiter, the scan returns the
/// content.
pub proof fn lemma_scan_of_escape_bytes(s: Seq<u8>, tail: Seq<u8>)
    requires
        valid_utf8(s),
        tail.len() > 0,
        tail[0] == B_COLON || tail[0] == B_SEMI,
    ensures
        scan_token(crate::escape::escape_bytes(s) + tail) == Ok::<(Seq<u8>, int), DecodeError>(
            (s, crate::escape::escape_bytes(s).len() as int),
        ),
{
    assert(s.skip(0) =~= s);
    lemma_scan_of_escaped(s, 0, tail);
}

/// A byte that passes through the scanner one at a time: plain ASCII,
/// neither reserved nor a delimiter.
pub open spec fn is_plain_ascii(b: u8) -> bool {
    b < 0x80 && !is_reserved(b)
}

/// On raw content of plain ASCII bytes followed by a delimiter, the scan
/// returns the content: this is how number texts and the boolean words are
/// read back.
pub proof fn lemma_scan_of_plain(c: Seq<u8>, tail: Seq<u8>)
    requires
        forall|k: int| 0 <= k < c.len() ==> is_plain_ascii(#[trigger] c[k]),
        tail.len() > 0,
        tail[0] == B_COLON || tail[0] == B_SEMI,
    ensures
        scan_token(c + tail) == Ok::<(Seq<u8>, int), DecodeError>((c, c.len() as int)),
    decreases c.len(),
{
    if c.len() == 0 {
        assert(c + tail =~= tail);
        assert(Seq::<u8>::empty() =~= c);
    } else {
        lemma_scan_of_plain(c.skip(1), tail);
        let x = c + tail;
        assert(x[0] == c[0]);
        assert(!is_reserved(c[0]));
        assert(x[0] != B_COLON && x[0] != B_SEMI && x[0] != B_BSLASH);
        assert(x.skip(1) =~= c.skip(1) + tail);
        assert(seq![c[0]] + c.skip(1) =~= c);
    }
}

} // verus!
