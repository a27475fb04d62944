use vstd::prelude::*;

verus! {

/// Why reading bytes failed.
#[derive(Debug, Clone, Copy)]
pub enum ReadError {
    /// A read ran past the end of the data.
    UnexpectedEof,
    /// A seek went past the end of the data.
    OutOfBounds,
}

/// A structural problem of a table.
#[derive(Debug, Clone, Copy)]
pub enum ParseError {
    /// No character map subtable of a supported platform, encoding and format.
    InvalidCmap,
    /// The `head` table's magic number is wrong.
    MagicNumber,
}

/// Every way in which parsing a font can fail.
#[derive(Debug, Clone, Copy)]
pub enum Error {
    ParseError(ParseError),
    /// The table directory has no table of this name.
    MissingTable(&'static str),
    InvalidFormat(&'static str),
    ReadError(ReadError),
    /// A tag that the font does not define where it was asked for.
    InvalidTag(u32),
    AnyMessage(&'static str),
    Unknown,
}

/// The error of every read past the end of the data.
pub open spec fn eof() -> Error {
    Error::ReadError(ReadError::UnexpectedEof)
}

/// The error of every seek past the end of the data.
pub open spec fn out_of_bounds() -> Error {
    Error::ReadError(ReadError::OutOfBounds)
}

impl From<ParseError> for Error {
    fn from(value: ParseError) -> (r: Error) {
        Error::ParseError(value)
    }
}

impl vstd::std_specs::convert::FromSpecImpl<ParseError> for Error {
    open spec fn obeys_from_spec() -> bool {
        true
    }

    open spec fn from_spec(value: ParseError) -> Error {
        Error::ParseError(value)
    }
}

impl From<ReadError> for Error {
    fn from(value: ReadError) -> (r: Error) {
        Error::ReadError(value)
    }
}

impl vstd::std_specs::convert::FromSpecImpl<ReadError> for Error {
    open spec fn obeys_from_spec() -> bool {
        true
    }

    open spec fn from_spec(value: ReadError) -> Error {
        Error::ReadError(value)
    }
}

} // verus!
