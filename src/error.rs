use vstd::prelude::*;

verus! {

/// The kind of host value that a decode expected and did not find.
#[derive(PartialEq, Eq, Structural, Clone, Copy, Debug)]
pub enum Kind {
    Boolean,
    Integer,
    Float,
    Char,
    String,
    Bytes,
    Null,
    Sequence,
    Dict,
    Enum,
}

/// Failures of the codec.
#[derive(PartialEq, Eq, Structural, Clone, Copy, Debug)]
pub enum Error {
    /// No type test for the requested shape matched the host value.
    TypeMismatch(Kind),
    /// A shape-less decode was asked for (an unknown struct field needs one).
    UnsupportedOperation,
    /// A host integer does not fit the requested integer width.
    OutOfRange,
    /// A sequence ended before a tuple had all its elements.
    InvalidLength,
    /// An enum tag names no variant of the schema.
    UnknownVariant,
    /// A struct field that is not optional is absent from the map.
    MissingField,
    /// A struct field occurs twice in the map.
    DuplicateField,
    /// A map was to be frozen from an odd number of staged elements.
    OddMapLength,
}

/// The text that names a kind of host value in an error.
pub open spec fn kind_text(k: Kind) -> Seq<char> {
    match k {
        Kind::Boolean => "ExpectedBoolean"@,
        Kind::Integer => "ExpectedInteger"@,
        Kind::Float => "ExpectedFloat"@,
        Kind::Char => "ExpectedChar"@,
        Kind::String => "ExpectedString"@,
        Kind::Bytes => "ExpectedBytes"@,
        Kind::Null => "ExpectedNull"@,
        Kind::Sequence => "ExpectedArray"@,
        Kind::Dict => "ExpectedMap"@,
        Kind::Enum => "ExpectedEnum"@,
    }
}

/// The text of an error.
pub open spec fn error_text(e: Error) -> Seq<char> {
    match e {
        Error::TypeMismatch(k) => kind_text(k),
        Error::UnsupportedOperation => "deserialize_any not supported!"@,
        Error::OutOfRange => "integer out of range"@,
        Error::InvalidLength => "sequence too short"@,
        Error::UnknownVariant => "unknown variant"@,
        Error::MissingField => "missing field"@,
        Error::DuplicateField => "duplicate field"@,
        Error::OddMapLength => "odd number of map elements"@,
    }
}

impl Error {
    /// A short text for the error.
    pub fn message(&self) -> (r: String)
        ensures
            r@ == error_text(*self),
    {
        let s: &str = match self {
            Error::TypeMismatch(k) => match k {
                Kind::Boolean => "ExpectedBoolean",
                Kind::Integer => "ExpectedInteger",
                Kind::Float => "ExpectedFloat",
                Kind::Char => "ExpectedChar",
                Kind::String => "ExpectedString",
                Kind::Bytes => "ExpectedBytes",
                Kind::Null => "ExpectedNull",
                Kind::Sequence => "ExpectedArray",
                Kind::Dict => "ExpectedMap",
                Kind::Enum => "ExpectedEnum",
            },
            Error::UnsupportedOperation => "deserialize_any not supported!",
            Error::OutOfRange => "integer out of range",
            Error::InvalidLength => "sequence too short",
            Error::UnknownVariant => "unknown variant",
            Error::MissingField => "missing field",
            Error::DuplicateField => "duplicate field",
            Error::OddMapLength => "odd number of map elements",
        };
        s.to_owned()
    }
}

} // verus!
