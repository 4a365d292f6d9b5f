//! The ways in which a container can fail to parse or to be rebuilt.

use vstd::prelude::*;

verus! {

/// A fatal defect of the input. No partial result accompanies it.
#[derive(Clone, Copy, Debug, PartialEq, Eq, Structural)]
pub enum FormatError {
    /// The source ended inside a fixed-size header field.
    UnexpectedEof,
    /// A stored offset is smaller than the bytes already consumed, so the
    /// length derived from it would be negative.
    LengthUnderflow,
    /// An offset or a length does not fit the 32-bit field that has to hold it.
    TooLarge,
    /// A region that has no artifact name would have to be written out.
    UnnamedRegion,
}

impl FormatError {
    /// A one-line description for the user.
    pub fn message(&self) -> (text: String)
        ensures
            text@ == match *self {
                FormatError::UnexpectedEof => "unexpected end of file inside a header"@,
                FormatError::LengthUnderflow => "stored offset precedes the bytes already consumed"@,
                FormatError::TooLarge => "offset or length exceeds 32 bits"@,
                FormatError::UnnamedRegion => "a region without a name is not the last of its table"@,
            },
    {
        match self {
            FormatError::UnexpectedEof => String::from_str("unexpected end of file inside a header"),
            FormatError::LengthUnderflow => String::from_str(
                "stored offset precedes the bytes already consumed",
            ),
            FormatError::TooLarge => String::from_str("offset or length exceeds 32 bits"),
            FormatError::UnnamedRegion => String::from_str(
                "a region without a name is not the last of its table",
            ),
        }
    }
}

} // verus!
