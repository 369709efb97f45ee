use vstd::prelude::*;

verus! {

/// An I/O error of the terminal or of an image source, carried through as is.
#[verifier::external_type_specification]
#[verifier::external_body]
pub struct ExIoError(std::io::Error);

/// A bitmap decoding error, carried through as is.
#[verifier::external_type_specification]
#[verifier::external_body]
pub struct ExBmpError(bmp::BmpError);

/// The errors of this library.
#[derive(Debug)]
pub enum ErrorKind {
    /// A second canvas was requested while one is live.
    AlreadyExists,
    /// The stream is not an interactive terminal.
    NotATTY,
    /// A drawing coordinate `(x, y)` lies outside the canvas resolution.
    OutOfBounds(u32, u32),
    /// The terminal failed to write, flush or switch modes.
    IOError(std::io::Error),
    /// The image source could not be decoded.
    ImageDecodeError(bmp::BmpError),
    /// A lock guarding the canvas was poisoned.
    LockContention,
}

impl From<std::io::Error> for ErrorKind {
    fn from(err: std::io::Error) -> (r: ErrorKind) {
        ErrorKind::IOError(err)
    }
}

impl vstd::std_specs::convert::FromSpecImpl<std::io::Error> for ErrorKind {
    open spec fn obeys_from_spec() -> bool {
        true
    }

    open spec fn from_spec(err: std::io::Error) -> ErrorKind {
        ErrorKind::IOError(err)
    }
}

impl From<bmp::BmpError> for ErrorKind {
    fn from(err: bmp::BmpError) -> (r: ErrorKind) {
        ErrorKind::ImageDecodeError(err)
    }
}

impl vstd::std_specs::convert::FromSpecImpl<bmp::BmpError> for ErrorKind {
    open spec fn obeys_from_spec() -> bool {
        true
    }

    open spec fn from_spec(err: bmp::BmpError) -> ErrorKind {
        ErrorKind::ImageDecodeError(err)
    }
}

} // verus!
