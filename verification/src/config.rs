//! Encoding/decoding configuration: the byte order used for fixed-width
//! numeric values.

use vstd::prelude::*;

use crate::decode::Decode;
use crate::encode::Encode;
use crate::error::Error;
use crate::io::ByteReader;

verus! {

/// Byte order used when a fixed-width numeric value is laid out on the wire.
#[derive(Debug, Clone, Copy, PartialEq, Eq, Structural)]
pub enum Endianness {
    /// Least-significant byte first.
    LittleEndian,
    /// Most-significant byte first.
    BigEndian,
}

impl Endianness {
    /// Returns the default byte order. The default wire format of this crate
    /// is little endian; it never depends on the platform's native order.
    pub fn new_default() -> (e: Endianness)
        ensures
            e == Endianness::LittleEndian,
    {
        Endianness::LittleEndian
    }
}

impl Default for Endianness {
    fn default() -> (e: Endianness)
        ensures
            e == Endianness::LittleEndian,
    {
        Endianness::LittleEndian
    }
}

/// Encoding/decoding configuration, passed by reference through every
/// recursive encode/decode call.
#[derive(Debug, Clone, Copy, PartialEq, Eq, Structural)]
pub struct Config {
    /// Byte order of the encoded bytes.
    pub endianness: Endianness,
}

impl Config {
    /// Returns the default configuration (little-endian byte order).
    pub fn new_default() -> (c: Config)
        ensures
            c == (Config { endianness: Endianness::LittleEndian }),
    {
        Config { endianness: Endianness::LittleEndian }
    }

    /// Encodes a value in a `Vec` under this configuration. Writing into a
    /// growing in-memory buffer cannot fail.
    pub fn encode<E: Encode + ?Sized>(&self, value: &E) -> (r: Vec<u8>)
        requires
            value.wire(self.endianness).len() <= usize::MAX,
        ensures
            r@ == value.wire(self.endianness),
    {
        let mut bytes: Vec<u8> = Vec::new();
        value.encode_to(self, &mut bytes);
        proof {
            assert(bytes@ =~= value.wire(self.endianness));
        }
        bytes
    }

    /// Appends a value's encoded bytes to `writer` and returns the number
    /// of bytes written.
    pub fn encode_to<E: Encode + ?Sized>(&self, value: &E, writer: &mut Vec<u8>) -> (n: usize)
        requires
            old(writer)@.len() + value.wire(self.endianness).len() <= usize::MAX,
        ensures
            final(writer)@ == old(writer)@ + value.wire(self.endianness),
            n == value.wire(self.endianness).len(),
    {
        value.encode_to(self, writer)
    }

    /// Decodes a value from a byte slice under this configuration. Bytes
    /// after the value are ignored, as a stream reader would leave them
    /// unread.
    pub fn decode<D: Decode>(&self, bytes: &[u8]) -> (r: Result<D, Error>)
        ensures
            match D::dec(self.endianness, bytes@) {
                Ok((m, n)) => r matches Ok(x) && x.model() == m,
                Err(err) => r matches Err(e2) && e2 == err,
            },
    {
        let mut reader = ByteReader::new(bytes);
        D::decode_from(self, &mut reader)
    }

    /// Decodes a value from a reader under this configuration.
    pub fn decode_from<D: Decode>(&self, reader: &mut ByteReader) -> (r: Result<D, Error>)
        requires
            old(reader).wf(),
        ensures
            final(reader).wf(),
            final(reader).bytes@ == old(reader).bytes@,
            old(reader).pos <= final(reader).pos,
            match D::dec(self.endianness, old(reader).remaining()) {
                Ok((m, n)) => r matches Ok(x) && x.model() == m && final(reader).pos == old(
                    reader,
                ).pos + n,
                Err(err) => r matches Err(e2) && e2 == err,
            },
    {
        D::decode_from(self, reader)
    }
}

impl Default for Config {
    fn default() -> (c: Config)
        ensures
            c == (Config { endianness: Endianness::LittleEndian }),
    {
        Config { endianness: Endianness::LittleEndian }
    }
}

} // verus!
