//! Binary object-serialization codec.
//!
//! Values are converted to a compact byte representation and back: no
//! padding, no self-description. Fixed-width numerics are laid out in the
//! configured byte order; dynamically sized containers carry a 64-bit
//! length prefix; sum types carry a base-128 variable-length tag.

pub mod config;
pub mod decode;
pub mod encode;
pub mod error;
pub mod io;
pub mod roundtrip;
pub mod sample;
pub mod varint;
pub mod wire;
pub mod zigzag;

pub use crate::config::Config;
pub use crate::config::Endianness;
pub use crate::decode::Decode;
pub use crate::encode::Encode;
pub use crate::error::Error;
pub use crate::io::ByteReader;
pub use crate::roundtrip::Lossless;
pub use crate::varint::VarInt;
pub use crate::zigzag::ZigZag;

use vstd::prelude::*;

verus! {

/// Returns the default configuration used by the convenience entry points.
pub fn config() -> (c: Config)
    ensures
        c == (Config { endianness: Endianness::LittleEndian }),
{
    Config::new_default()
}

/// Encodes a value in a `Vec` using the default configuration. Writing
/// into a growing in-memory buffer cannot fail.
pub fn encode<E: Encode + ?Sized>(value: &E) -> (r: Vec<u8>)
    requires
        value.wire(Endianness::LittleEndian).len() <= usize::MAX,
    ensures
        r@ == value.wire(Endianness::LittleEndian),
{
    Config::new_default().encode(value)
}

/// Appends a value's encoded bytes to `writer` using the default
/// configuration and returns the number of bytes written.
pub fn encode_to<E: Encode + ?Sized>(value: &E, writer: &mut Vec<u8>) -> (n: usize)
    requires
        old(writer)@.len() + value.wire(Endianness::LittleEndian).len() <= usize::MAX,
    ensures
        final(writer)@ == old(writer)@ + value.wire(Endianness::LittleEndian),
        n == value.wire(Endianness::LittleEndian).len(),
{
    let c = Config::new_default();
    c.encode_to(value, writer)
}

/// Decodes a value from a byte slice using the default configuration.
pub fn decode<D: Decode>(bytes: &[u8]) -> (r: Result<D, Error>)
    ensures
        match D::dec(Endianness::LittleEndian, bytes@) {
            Ok((m, n)) => r matches Ok(x) && x.model() == m,
            Err(err) => r matches Err(e2) && e2 == err,
        },
{
    Config::new_default().decode(bytes)
}

/// Decodes a value from a reader using the default configuration.
pub fn decode_from<D: Decode>(reader: &mut ByteReader) -> (r: Result<D, Error>)
    requires
        old(reader).wf(),
    ensures
        final(reader).wf(),
        final(reader).bytes@ == old(reader).bytes@,
        old(reader).pos <= final(reader).pos,
        match D::dec(Endianness::LittleEndian, old(reader).remaining()) {
            Ok((m, n)) => r matches Ok(x) && x.model() == m && final(reader).pos == old(
                reader,
            ).pos + n,
            Err(err) => r matches Err(e2) && e2 == err,
        },
{
    let c = Config::new_default();
    c.decode_from(reader)
}

} // verus!
