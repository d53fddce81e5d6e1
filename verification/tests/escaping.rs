//! The escape engine on its own: the reversible transform and the
//! slash-run rule, including runs of three and more.

use linefmt::error::DecodeError;
use linefmt::escape::{escape, unescape};

#[test]
fn escape_reserved_bytes() {
    assert_eq!(escape(b"a#b:c;d\\e"), b"a\\#b\\:c\\;d\\\\e");
}

#[test]
fn escape_isolated_slash_untouched() {
    assert_eq!(escape(b"ba/r"), b"ba/r");
    assert_eq!(escape(b"/"), b"/");
    assert_eq!(escape(b"a/b/c"), b"a/b/c");
}

#[test]
fn escape_double_slash_run() {
    assert_eq!(escape(b"ba//r"), b"ba\\/\\/r");
}

#[test]
fn escape_longer_slash_runs() {
    assert_eq!(escape(b"a///b"), b"a\\/\\/\\/b");
    assert_eq!(escape(b"////"), b"\\/\\/\\/\\/");
}

#[test]
fn unescape_inverts_escape() {
    let samples: &[&[u8]] = &[
        b"",
        b"plain",
        b"a#b:c;d\\e",
        b"ba//r",
        b"a///b",
        b"//leading",
        b"trailing//",
        b"\\\\//##;;::",
        "caf\u{00e9}\u{1f600}".as_bytes(),
    ];
    for s in samples {
        let escaped = escape(s);
        assert_eq!(unescape(&escaped).unwrap(), *s, "sample {:?}", s);
    }
}

#[test]
fn unescape_takes_next_byte_literally() {
    assert_eq!(unescape(b"\\a\\/\\#").unwrap(), b"a/#");
}

#[test]
fn unescape_trailing_backslash_fails() {
    assert_eq!(unescape(b"abc\\"), Err(DecodeError::InvalidEscape));
    assert_eq!(unescape(b"\\"), Err(DecodeError::InvalidEscape));
}
