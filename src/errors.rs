use vstd::prelude::*;

verus! {

/// The ways in which parsing an identifier can fail.
#[derive(Debug, Clone, Copy, PartialEq, Eq, Structural)]
pub enum ParserError {
    /// The identifier, or a part that it needs (such as its language subtag), is missing.
    Missing,
    /// The language subtag is malformed.
    InvalidLanguage,
    /// A subtag is malformed or stands where it is not allowed.
    InvalidSubtag,
    /// An extension does not start with an alphanumeric singleton.
    InvalidExtension,
    /// A subdivision identifier is malformed.
    InvalidSubdivision,
    /// A second private-use extension in one identifier.
    Unexpected,
}

impl ParserError {
    /// A short description of the error.
    pub fn message(&self) -> (r: &'static str)
        ensures
            *self == ParserError::Missing ==> r@ == "Missing identifier"@,
            *self == ParserError::InvalidLanguage ==> r@ == "Invalid language identifier"@,
            *self == ParserError::InvalidSubtag ==> r@ == "Invalid subtag"@,
            *self == ParserError::InvalidExtension ==> r@ == "Invalid extension"@,
            *self == ParserError::InvalidSubdivision ==> r@ == "Invalid subdivision"@,
            *self == ParserError::Unexpected ==> r@ == "Unexpected error"@,
    {
        match self {
            ParserError::Missing => "Missing identifier",
            ParserError::InvalidLanguage => "Invalid language identifier",
            ParserError::InvalidSubtag => "Invalid subtag",
            ParserError::InvalidExtension => "Invalid extension",
            ParserError::InvalidSubdivision => "Invalid subdivision",
            ParserError::Unexpected => "Unexpected error",
        }
    }
}

} // verus!
