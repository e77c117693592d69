use vstd::prelude::*;

verus! {

/// Why a command line was rejected.
#[derive(Clone, Copy, Debug, PartialEq, Eq, Structural)]
pub enum ParseError {
    /// More than six whitespace-separated words.
    TooManyArguments,
    /// The first word is missing or names no known interface.
    InvalidInterface,
    /// The second word is missing or names no known operation.
    InvalidOperation,
    /// A payload word starts with neither a decimal digit nor `0x`.
    NotHexOrDecimal,
    /// A decimal payload word holds a character other than `0`-`9`.
    InvalidDecimalChar,
    /// A hexadecimal payload word holds a character that is no hex digit.
    InvalidHexChar,
    /// A payload word does not fit the 32-bit range the decoder admits.
    NumberTooLarge,
    /// The input buffer does not hold valid UTF-8 text.
    MalformedText,
}

impl ParseError {
    /// The text written back to the operator for this error.
    pub fn message(&self) -> (r: &'static str)
        ensures
            *self == ParseError::TooManyArguments ==> r@ == "Too many arguments\n\r"@,
            *self == ParseError::InvalidInterface ==> r@ == "Invalid Interface\n\r"@,
            *self == ParseError::InvalidOperation ==> r@ == "Invalid Operation\n\r"@,
            *self == ParseError::NotHexOrDecimal ==> r@ == "Not a hex or decimal string\n\r"@,
            *self == ParseError::InvalidDecimalChar ==> r@ == "Invalid decimal character\n\r"@,
            *self == ParseError::InvalidHexChar ==> r@ == "Invalid hex character\n\r"@,
            *self == ParseError::NumberTooLarge ==> r@ == "Integer number too large!\n\r"@,
            *self == ParseError::MalformedText ==> r@ == "Input is not valid UTF-8\n\r"@,
    {
        match self {
            ParseError::TooManyArguments => "Too many arguments\n\r",
            ParseError::InvalidInterface => "Invalid Interface\n\r",
            ParseError::InvalidOperation => "Invalid Operation\n\r",
            ParseError::NotHexOrDecimal => "Not a hex or decimal string\n\r",
            ParseError::InvalidDecimalChar => "Invalid decimal character\n\r",
            ParseError::InvalidHexChar => "Invalid hex character\n\r",
            ParseError::NumberTooLarge => "Integer number too large!\n\r",
            ParseError::MalformedText => "Input is not valid UTF-8\n\r",
        }
    }
}

} // verus!
