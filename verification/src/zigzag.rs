//! ZigZag mapping between signed and unsigned integers.
//!
//! Small magnitudes (positive or negative) map to small unsigned values, so
//! that a base-128 variable-length encoding of the result stays short:
//! `0 -> 0`, `-1 -> 1`, `1 -> 2`, `-2 -> 3`, `2 -> 4`, and so on. The
//! mapping is a bijection between the full signed range of a type and the
//! full unsigned range of its output type.

use vstd::prelude::*;

verus! {

/// The ZigZag image of a signed value, as a mathematical integer.
pub open spec fn zigzag(n: int) -> int {
    if n >= 0 {
        2 * n
    } else {
        -2 * n - 1
    }
}

/// The signed value whose ZigZag image is `u`, for `u >= 0`.
pub open spec fn unzigzag(u: int) -> int {
    if u % 2 == 0 {
        u / 2
    } else {
        -(u / 2) - 1
    }
}

/// ZigZag decoding inverts ZigZag encoding on every integer.
pub proof fn lemma_zigzag_inverse(n: int)
    ensures
        unzigzag(zigzag(n)) == n,
{
}

/// ZigZag encoding inverts ZigZag decoding on every non-negative integer,
/// so the mapping is a bijection.
pub proof fn lemma_unzigzag_inverse(u: int)
    requires
        u >= 0,
    ensures
        zigzag(unzigzag(u)) == u,
{
}

/// ZigZag encoding maps the signed range `[-bound, bound)` onto the
/// unsigned range `[0, 2 * bound)`.
pub proof fn lemma_zigzag_range(n: int, bound: int)
    requires
        -bound <= n < bound,
    ensures
        0 <= zigzag(n) < 2 * bound,
{
}

/// ZigZag decoding maps the unsigned range `[0, 2 * bound)` onto the
/// signed range `[-bound, bound)`.
pub proof fn lemma_unzigzag_range(u: int, bound: int)
    requires
        0 <= u < 2 * bound,
    ensures
        -bound <= unzigzag(u) < bound,
{
}

/// Conversion of a signed integer type to and from its ZigZag image.
pub trait ZigZag: Sized {
    /// The unsigned type holding the ZigZag image.
    type Output;

    /// The numeric value of `self`.
    spec fn signed_value(self) -> int;

    /// The numeric value of an image.
    spec fn unsigned_value(o: Self::Output) -> int;

    /// Encodes the value in zigzagged format.
    fn encode_zigzag(self) -> (r: Self::Output)
        ensures
            Self::unsigned_value(r) == zigzag(self.signed_value()),
    ;

    /// Decodes a value from zigzagged format.
    fn decode_zigzag(encoded: Self::Output) -> (r: Self)
        ensures
            r.signed_value() == unzigzag(Self::unsigned_value(encoded)),
    ;
}

impl ZigZag for i8 {
    type Output = u8;

    open spec fn signed_value(self) -> int {
        self as int
    }

    open spec fn unsigned_value(o: u8) -> int {
        o as int
    }

    fn encode_zigzag(self) -> (r: u8)
        ensures
            r as int == zigzag(self as int),
    {
        if self >= 0 {
            (self as u8) * 2
        } else {
            let m: i8 = -(self + 1);
            (m as u8) * 2 + 1
        }
    }

    fn decode_zigzag(encoded: u8) -> (r: i8)
        ensures
            r as int == unzigzag(encoded as int),
    {
        let h: u8 = encoded / 2;
        if encoded % 2 == 0 {
            h as i8
        } else {
            -(h as i8) - 1
        }
    }
}

impl ZigZag for i16 {
    type Output = u16;

    open spec fn signed_value(self) -> int {
        self as int
    }

    open spec fn unsigned_value(o: u16) -> int {
        o as int
    }

    fn encode_zigzag(self) -> (r: u16)
        ensures
            r as int == zigzag(self as int),
    {
        if self >= 0 {
            (self as u16) * 2
        } else {
            let m: i16 = -(self + 1);
            (m as u16) * 2 + 1
        }
    }

    fn decode_zigzag(encoded: u16) -> (r: i16)
        ensures
            r as int == unzigzag(encoded as int),
    {
        let h: u16 = encoded / 2;
        if encoded % 2 == 0 {
            h as i16
        } else {
            -(h as i16) - 1
        }
    }
}

impl ZigZag for i32 {
    type Output = u32;

    open spec fn signed_value(self) -> int {
        self as int
    }

    open spec fn unsigned_value(o: u32) -> int {
        o as int
    }

    fn encode_zigzag(self) -> (r: u32)
        ensures
            r as int == zigzag(self as int),
    {
        if self >= 0 {
            (self as u32) * 2
        } else {
            let m: i32 = -(self + 1);
            (m as u32) * 2 + 1
        }
    }

    fn decode_zigzag(encoded: u32) -> (r: i32)
        ensures
            r as int == unzigzag(encoded as int),
    {
        let h: u32 = encoded / 2;
        if encoded % 2 == 0 {
            h as i32
        } else {
            -(h as i32) - 1
        }
    }
}

impl ZigZag for i64 {
    type Output = u64;

    open spec fn signed_value(self) -> int {
        self as int
    }

    open spec fn unsigned_value(o: u64) -> int {
        o as int
    }

    fn encode_zigzag(self) -> (r: u64)
        ensures
            r as int == zigzag(self as int),
    {
        if self >= 0 {
            (self as u64) * 2
        } else {
            let m: i64 = -(self + 1);
            (m as u64) * 2 + 1
        }
    }

    fn decode_zigzag(encoded: u64) -> (r: i64)
        ensures
            r as int == unzigzag(encoded as int),
    {
        let h: u64 = encoded / 2;
        if encoded % 2 == 0 {
            h as i64
        } else {
            -(h as i64) - 1
        }
    }
}

impl ZigZag for i128 {
    type Output = u128;

    open spec fn signed_value(self) -> int {
        self as int
    }

    open spec fn unsigned_value(o: u128) -> int {
        o as int
    }

    fn encode_zigzag(self) -> (r: u128)
        ensures
            r as int == zigzag(self as int),
    {
        if self >= 0 {
            (self as u128) * 2
        } else {
            let m: i128 = -(self + 1);
            (m as u128) * 2 + 1
        }
    }

    fn decode_zigzag(encoded: u128) -> (r: i128)
        ensures
            r as int == unzigzag(encoded as int),
    {
        let h: u128 = encoded / 2;
        if encoded % 2 == 0 {
            h as i128
        } else {
            -(h as i128) - 1
        }
    }
}

impl ZigZag for isize {
    type Output = usize;

    open spec fn signed_value(self) -> int {
        self as int
    }

    open spec fn unsigned_value(o: usize) -> int {
        o as int
    }

    fn encode_zigzag(self) -> (r: usize)
        ensures
            r as int == zigzag(self as int),
    {
        if self >= 0 {
            (self as usize) * 2
        } else {
            let m: isize = -(self + 1);
            (m as usize) * 2 + 1
        }
    }

    fn decode_zigzag(encoded: usize) -> (r: isize)
        ensures
            r as int == unzigzag(encoded as int),
    {
        let h: usize = encoded / 2;
        if encoded % 2 == 0 {
            h as isize
        } else {
            -(h as isize) - 1
        }
    }
}

} // verus!
