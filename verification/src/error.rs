//! Failure taxonomy shared by every encode/decode operation.

use vstd::prelude::*;

verus! {

/// Error returned by a decode operation.
///
/// Every failure terminates the current operation; errors bubble up
/// unchanged through the recursive call chain, never re-wrapped or
/// downgraded. Encoding into a growing in-memory buffer cannot fail, so
/// only decoding returns these.
#[derive(Debug, Clone, Copy, PartialEq, Eq, Structural)]
pub enum Error {
    /// The underlying byte source ended before the value was complete.
    IoError,
    /// A decoded 32-bit code point is not a Unicode scalar value; carries
    /// the offending code point.
    InvalidChar(u32),
    /// A sum-type, `Option` or `Result` discriminant is out of range;
    /// carries the raw tag.
    InvalidEnumVariant(u128),
    /// A container length prefix does not fit the native index type;
    /// carries the raw length.
    InvalidLength(u64),
    /// Decoded string bytes are not valid UTF-8.
    InvalidUtf8String,
    /// A decoded non-zero-constrained integer is zero.
    NonZeroError,
    /// A fixed-size array was only partially filled while decoding. This is
    /// an internal defect of an array-building helper, not a path a correct
    /// build can reach.
    PartiallyFilledArray,
    /// An integral conversion failed: a decoded value does not fit the
    /// target integer type, or a base-128 group sequence overflows the
    /// 128-bit accumulator.
    TryFromIntError,
}

impl Error {
    /// A short human-readable description of the error kind.
    pub fn describe(&self) -> (r: &'static str)
        ensures
            r@ == self.describe_spec(),
    {
        match self {
            Error::IoError => "byte stream ended before the value was complete",
            Error::InvalidChar(_) => "invalid character",
            Error::InvalidEnumVariant(_) => "invalid enum variant",
            Error::InvalidLength(_) => "invalid length",
            Error::InvalidUtf8String => "invalid UTF-8 string",
            Error::NonZeroError => "a non-zero value is zero",
            Error::PartiallyFilledArray => "partially filled array",
            Error::TryFromIntError => "failed to do integral type conversion",
        }
    }

    /// The description returned by [`Error::describe`].
    pub open spec fn describe_spec(&self) -> Seq<char> {
        match self {
            Error::IoError => "byte stream ended before the value was complete"@,
            Error::InvalidChar(_) => "invalid character"@,
            Error::InvalidEnumVariant(_) => "invalid enum variant"@,
            Error::InvalidLength(_) => "invalid length"@,
            Error::InvalidUtf8String => "invalid UTF-8 string"@,
            Error::NonZeroError => "a non-zero value is zero"@,
            Error::PartiallyFilledArray => "partially filled array"@,
            Error::TryFromIntError => "failed to do integral type conversion"@,
        }
    }
}

} // verus!
