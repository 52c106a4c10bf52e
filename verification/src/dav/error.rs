//! Why reading an XML document into the data model failed.
use vstd::prelude::*;

verus! {

/// A decoding failure. `Recoverable` means the element at hand is not the
/// one asked for, and a caller may try another.
#[derive(Debug, PartialEq, Eq, Clone, Copy)]
pub enum ParsingError {
    Recoverable,
    MissingChild,
    MissingAttribute,
    NamespacePrefixAlreadyUsed,
    WrongToken,
    TagNotFound,
    InvalidValue,
    /// CDATA that is not UTF-8.
    Utf8Error,
    /// The XML reader failed: malformed markup, text that does not
    /// unescape, or a document that ends inside an element being skipped.
    QuickXml,
    /// A date that does not read.
    Chrono,
    /// A number that does not read.
    Int,
    /// The document ended where data was expected.
    Eof,
}

/// The message of each failure.
pub open spec fn parsing_error_text(e: ParsingError) -> Seq<char> {
    match e {
        ParsingError::Recoverable => "Recoverable"@,
        ParsingError::MissingChild => "Missing child"@,
        ParsingError::MissingAttribute => "Missing attribute"@,
        ParsingError::NamespacePrefixAlreadyUsed => "Namespace prefix already used"@,
        ParsingError::WrongToken => "Wrong token"@,
        ParsingError::TagNotFound => "Tag not found"@,
        ParsingError::InvalidValue => "Invalid value"@,
        ParsingError::Utf8Error => "Utf8 Error"@,
        ParsingError::QuickXml => "Quick XML error"@,
        ParsingError::Chrono => "Chrono error"@,
        ParsingError::Int => "Number parsing error"@,
        ParsingError::Eof => "Found EOF while expecting data"@,
    }
}

impl ParsingError {
    /// The message of the failure.
    pub fn message(&self) -> (r: &'static str)
        ensures
            r@ == parsing_error_text(*self),
    {
        match self {
            Self::Recoverable => "Recoverable",
            Self::MissingChild => "Missing child",
            Self::MissingAttribute => "Missing attribute",
            Self::NamespacePrefixAlreadyUsed => "Namespace prefix already used",
            Self::WrongToken => "Wrong token",
            Self::TagNotFound => "Tag not found",
            Self::InvalidValue => "Invalid value",
            Self::Utf8Error => "Utf8 Error",
            Self::QuickXml => "Quick XML error",
            Self::Chrono => "Chrono error",
            Self::Int => "Number parsing error",
            Self::Eof => "Found EOF while expecting data",
        }
    }
}

} // verus!
