//! The escape engine: a reversible byte-level transform for the reserved
//! bytes of the format.
//!
//! `#`, `:`, `;` and `\` are escaped with a preceding `\` wherever they occur
//! in content. A `/` is escaped exactly when it touches another `/`, so that
//! every slash of a run of two or more is escaped while an isolated slash is
//! written literally. Unescaping takes the byte after a `\` literally,
//! whatever it is, and is the exact left inverse of escaping.

use vstd::prelude::*;

use crate::error::DecodeError;

verus! {

pub const B_HASH: u8 = 0x23;

pub const B_COLON: u8 = 0x3a;

pub const B_SEMI: u8 = 0x3b;

pub const B_BSLASH: u8 = 0x5c;

pub const B_SLASH: u8 = 0x2f;

pub const B_NL: u8 = 0x0a;

pub const B_SPACE: u8 = 0x20;

pub const B_MINUS: u8 = 0x2d;

/// The four structurally reserved bytes.
pub open spec fn is_reserved(b: u8) -> bool {
    b == B_HASH || b == B_COLON || b == B_SEMI || b == B_BSLASH
}

/// Whether the byte of `s` at `i` receives a preceding `\` when `s` is
/// escaped: reserved bytes always do, and a `/` does exactly when the byte
/// before or after it is also a `/`.
pub open spec fn needs_escape_at(s: Seq<u8>, i: int) -> bool
    recommends
        0 <= i < s.len(),
{
    ||| is_reserved(s[i])
    ||| (s[i] == B_SLASH && ((i > 0 && s[i - 1] == B_SLASH) || (i + 1 < s.len() && s[i + 1]
        == B_SLASH)))
}

/// The escaped form of the suffix of `s` that starts at `i`, with escape
/// decisions still taken against the whole of `s`.
pub open spec fn escape_from(s: Seq<u8>, i: int) -> Seq<u8>
    decreases s.len() - i,
{
    if i < 0 || i >= s.len() {
        Seq::empty()
    } else if needs_escape_at(s, i) {
        seq![B_BSLASH, s[i]] + escape_from(s, i + 1)
    } else {
        seq![s[i]] + escape_from(s, i + 1)
    }
}

/// The escaped form of `s`.
pub open spec fn escape_bytes(s: Seq<u8>) -> Seq<u8> {
    escape_from(s, 0)
}

/// The unescaped form of `s`, or `None` when a trailing `\` has no byte
/// after it.
pub open spec fn unescape_bytes(s: Seq<u8>) -> Option<Seq<u8>>
    decreases s.len(),
{
    if s.len() == 0 {
        Some(Seq::empty())
    } else if s[0] == B_BSLASH {
        if s.len() == 1 {
            None
        } else {
            match unescape_bytes(s.skip(2)) {
                Some(t) => Some(seq![s[1]] + t),
                None => None,
            }
        }
    } else {
        match unescape_bytes(s.skip(1)) {
            Some(t) => Some(seq![s[0]] + t),
            None => None,
        }
    }
}

/// Escaping the suffix from `i` and unescaping gives back exactly that
/// suffix.
proof fn lemma_unescape_escape_from(s: Seq<u8>, i: int)
    requires
        0 <= i <= s.len(),
    ensures
        unescape_bytes(escape_from(s, i)) == Some(s.skip(i)),
    decreases s.len() - i,
{
    if i >= s.len() {
        assert(s.skip(i) =~= Seq::<u8>::empty());
    } else {
        lemma_unescape_escape_from(s, i + 1);
        if needs_escape_at(s, i) {
            let e = seq![B_BSLASH, s[i]] + escape_from(s, i + 1);
            assert(e.skip(2) =~= escape_from(s, i + 1));
            assert(seq![s[i]] + s.skip(i + 1) =~= s.skip(i));
        } else {
            let e = seq![s[i]] + escape_from(s, i + 1);
            assert(e[0] == s[i] && s[i] != B_BSLASH);
            assert(e.skip(1) =~= escape_from(s, i + 1));
            assert(seq![s[i]] + s.skip(i + 1) =~= s.skip(i));
        }
    }
}

/// Unescaping is the exact left inverse of escaping: for every byte string
/// `s`, `unescape(escape(s)) == s`.
pub proof fn lemma_unescape_escape(s: Seq<u8>)
    ensures
        unescape_bytes(escape_bytes(s)) == Some(s),
{
    lemma_unescape_escape_from(s, 0);
    assert(s.skip(0) =~= s);
}

/// A slash is escaped exactly when it stands in a run of two or more
/// consecutive slashes; an isolated slash is left untouched.
pub proof fn lemma_slash_run_law(s: Seq<u8>, i: int)
    requires
        0 <= i < s.len(),
        s[i] == B_SLASH,
    ensures
        needs_escape_at(s, i) <==> ((i > 0 && s[i - 1] == B_SLASH) || (i + 1 < s.len() && s[i + 1]
            == B_SLASH)),
{
}

/// Content without reserved bytes and without adjacent slashes is left
/// unchanged by escaping.
pub proof fn lemma_escape_identity(s: Seq<u8>)
    requires
        forall|i: int| 0 <= i < s.len() ==> !is_reserved(#[trigger] s[i]),
        forall|i: int| 0 < i < s.len() ==> !(#[trigger] s[i] == B_SLASH && s[i - 1] == B_SLASH),
    ensures
        escape_bytes(s) == s,
{
    lemma_escape_identity_from(s, 0);
    assert(s.skip(0) =~= s);
}

proof fn lemma_escape_identity_from(s: Seq<u8>, i: int)
    requires
        0 <= i <= s.len(),
        forall|j: int| 0 <= j < s.len() ==> !is_reserved(#[trigger] s[j]),
        forall|j: int| 0 < j < s.len() ==> !(#[trigger] s[j] == B_SLASH && s[j - 1] == B_SLASH),
    ensures
        escape_from(s, i) == s.skip(i),
    decreases s.len() - i,
{
    if i >= s.len() {
        assert(s.skip(i) =~= Seq::<u8>::empty());
    } else {
        lemma_escape_identity_from(s, i + 1);
        assert(!needs_escape_at(s, i));
        assert(seq![s[i]] + s.skip(i + 1) =~= s.skip(i));
    }
}

/// Escapes `content` onto the end of `out`.
pub fn write_escaped(out: &mut Vec<u8>, content: &[u8])
    ensures
        final(out)@ == old(out)@ + escape_bytes(content@),
{
    let ghost orig = out@;
    let n = content.len();
    let mut i: usize = 0;
    while i < n
        invariant
            n == content@.len(),
            0 <= i <= n,
            out@ + escape_from(content@, i as int) == orig + escape_bytes(content@),
        decreases n - i,
    {
        let b = content[i];
        let escaped = if b == B_HASH || b == B_COLON || b == B_SEMI || b == B_BSLASH {
            true
        } else if b == B_SLASH {
            (i > 0 && content[i - 1] == B_SLASH) || (i + 1 < n && content[i + 1] == B_SLASH)
        } else {
            false
        };
        assert(escaped == needs_escape_at(content@, i as int));
        if escaped {
            out.push(B_BSLASH);
        }
        out.push(b);
        assert(out@ + escape_from(content@, i + 1) == orig + escape_bytes(content@));
        i = i + 1;
    }
}

/// The escaped form of `content` as a fresh buffer.
pub fn escape(content: &[u8]) -> (r: Vec<u8>)
    ensures
        r@ == escape_bytes(content@),
{
    let mut out: Vec<u8> = Vec::new();
    write_escaped(&mut out, content);
    out
}

/// Prepends `p` to the payload of `o`, keeping `None` as it is.
pub open spec fn prepend_unescaped(p: Seq<u8>, o: Option<Seq<u8>>) -> Option<Seq<u8>> {
    match o {
        Some(t) => Some(p + t),
        None => None,
    }
}

/// The unescaped form of `content`, or `InvalidEscape` when a trailing `\`
/// has no byte after it.
pub fn unescape(content: &[u8]) -> (r: Result<Vec<u8>, DecodeError>)
    ensures
        match r {
            Ok(v) => unescape_bytes(content@) == Some(v@),
            Err(e) => unescape_bytes(content@) is None && e == DecodeError::InvalidEscape,
        },
{
    let n = content.len();
    let mut out: Vec<u8> = Vec::new();
    let mut i: usize = 0;
    proof {
        assert(content@.skip(0) =~= content@);
        assert(out@ =~= Seq::<u8>::empty());
        lemma_prepend_unescaped_empty(unescape_bytes(content@));
    }
    while i < n
        invariant
            n == content@.len(),
            0 <= i <= n,
            unescape_bytes(content@) == prepend_unescaped(out@, unescape_bytes(content@.skip(i as int))),
        decreases n - i,
    {
        let ghost pre = out@;
        let ghost suf = content@.skip(i as int);
        let b = content[i];
        assert(suf[0] == b);
        if b == B_BSLASH {
            if i + 1 == n {
                assert(suf.len() == 1);
                assert(unescape_bytes(content@) is None);
                return Err(DecodeError::InvalidEscape);
            }
            out.push(content[i + 1]);
            assert(suf.skip(2) =~= content@.skip(i + 2));
            assert(pre + seq![suf[1]] =~= out@);
            proof {
                lemma_prepend_unescaped_assoc(pre, seq![suf[1]], unescape_bytes(content@.skip(i + 2)));
            }
            i = i + 2;
        } else {
            out.push(b);
            assert(suf.skip(1) =~= content@.skip(i + 1));
            assert(pre + seq![suf[0]] =~= out@);
            proof {
                lemma_prepend_unescaped_assoc(pre, seq![suf[0]], unescape_bytes(content@.skip(i + 1)));
            }
            i = i + 1;
        }
    }
    assert(content@.skip(i as int) =~= Seq::<u8>::empty());
    assert(unescape_bytes(content@) == Some(out@));
    Ok(out)
}

proof fn lemma_prepend_unescaped_empty(o: Option<Seq<u8>>)
    ensures
        prepend_unescaped(Seq::<u8>::empty(), o) == o,
{
    match o {
        Some(t) => {
            assert(Seq::<u8>::empty() + t =~= t);
        },
        None => {},
    }
}

proof fn lemma_prepend_unescaped_assoc(p: Seq<u8>, q: Seq<u8>, o: Option<Seq<u8>>)
    ensures
        prepend_unescaped(p, prepend_unescaped(q, o)) == prepend_unescaped(p + q, o),
{
    match o {
        Some(t) => {
            assert(p + (q + t) =~= (p + q) + t);
        },
        None => {},
    }
}

} // verus!
