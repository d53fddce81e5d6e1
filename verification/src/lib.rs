//! A line-oriented, escaped, indentation-sensitive text format.
//!
//! Every value is written as one or more newline-terminated records. A record
//! begins with a header byte (`#` for a root or struct-field record, `:` for
//! an in-line parameter), carries an optional tag and zero or more `:`-led
//! parameters, and ends with `;` followed by a newline. The bytes `#`, `:`,
//! `;` and `\` are reserved and are backslash-escaped wherever they occur in
//! content; every `/` inside a run of two or more consecutive slashes is also
//! escaped, while an isolated `/` is written literally.

pub mod de;
pub mod error;
pub mod escape;
pub mod laws;
pub mod numeral;
pub mod record;
pub mod ser;
pub mod utf8;
pub mod value;
