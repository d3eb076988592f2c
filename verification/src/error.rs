//! The errors of the in-memory model of an image.

use vstd::prelude::*;

verus! {

/// What went wrong, with a message for a person.
#[derive(Debug, Clone, PartialEq, Eq)]
pub enum Error {
    /// The bytes are no image, or no part of one.
    InvalidFormat(String),
    /// The image that was asked for cannot be made.
    ValidationError(String),
    /// A path is too long, holds a character that it may not, names something
    /// that is not there, or something that is there already.
    PathError(String),
    /// Something is larger than this library takes it.
    SizeLimit(String),
    UdfError(String),
    JolietError(String),
    RockRidgeError(String),
    ElToritoError(String),
}

impl Error {
    /// What kind of error it is, as the start of its message.
    pub open spec fn spec_prefix(&self) -> Seq<char> {
        match self {
            Error::InvalidFormat(_) => "Invalid ISO format: "@,
            Error::ValidationError(_) => "Validation error: "@,
            Error::PathError(_) => "Path error: "@,
            Error::SizeLimit(_) => "Size limit exceeded: "@,
            Error::UdfError(_) => "UDF error: "@,
            Error::JolietError(_) => "Joliet error: "@,
            Error::RockRidgeError(_) => "Rock Ridge error: "@,
            Error::ElToritoError(_) => "El Torito error: "@,
        }
    }

    /// What the error says in detail.
    pub open spec fn spec_detail(&self) -> Seq<char> {
        match self {
            Error::InvalidFormat(m) => m@,
            Error::ValidationError(m) => m@,
            Error::PathError(m) => m@,
            Error::SizeLimit(m) => m@,
            Error::UdfError(m) => m@,
            Error::JolietError(m) => m@,
            Error::RockRidgeError(m) => m@,
            Error::ElToritoError(m) => m@,
        }
    }

    /// The message of the error: its kind, then its detail.
    pub fn message(&self) -> (r: String)
        ensures
            r@ == self.spec_prefix() + self.spec_detail(),
    {
        let (prefix, detail): (&str, &String) = match self {
            Error::InvalidFormat(m) => ("Invalid ISO format: ", m),
            Error::ValidationError(m) => ("Validation error: ", m),
            Error::PathError(m) => ("Path error: ", m),
            Error::SizeLimit(m) => ("Size limit exceeded: ", m),
            Error::UdfError(m) => ("UDF error: ", m),
            Error::JolietError(m) => ("Joliet error: ", m),
            Error::RockRidgeError(m) => ("Rock Ridge error: ", m),
            Error::ElToritoError(m) => ("El Torito error: ", m),
        };
        let mut r = prefix.to_owned();
        r.append(detail.as_str());
        r
    }
}

} // verus!
