//! The error values and their messages.

#[test]
fn display_unsupported_type_error() {
    assert_eq!(linefmt::error::Error::UnsupportedType.message(), "unsupported Rust type");
}

#[test]
fn display_io_error() {
    assert_eq!(linefmt::error::Error::Io.message(), "error during I/O operations");
}

#[test]
fn display_custom_error() {
    assert_eq!(
        linefmt::error::Error::Custom("custom error message".to_owned()).message(),
        "custom error message"
    );
}

#[test]
fn custom_wraps_message() {
    let e = linefmt::error::Error::custom("boom".to_owned());
    assert_eq!(e, linefmt::error::Error::Custom("boom".to_owned()));
}
