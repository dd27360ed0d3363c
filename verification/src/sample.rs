//! Hand-written encodings for one record of each field shape and for one
//! sum type.
//!
//! Generated implementations for user-defined types must follow exactly
//! these shapes: a record encodes its fields in declared order with no
//! prefix (a fieldless record encodes to zero bytes); a sum type writes a
//! base-128 tag holding the variant index, then the selected variant's
//! fields in declared order, and rejects an out-of-range tag with
//! `InvalidEnumVariant` carrying the raw tag.

use vstd::prelude::*;

use crate::config::Config;
use crate::config::Endianness;
use crate::decode::Decode;
use crate::encode::Encode;
use crate::error::Error;
use crate::io::ByteReader;
use crate::roundtrip::Lossless;
use crate::varint::VarInt;
use crate::varint::varint_wire;

verus! {

/// A record with no fields.
#[derive(Debug, PartialEq, Eq, Structural, Clone, Copy)]
pub struct UnitStruct;

/// A record with positional fields.
#[derive(Debug, PartialEq, Eq, Structural, Clone, Copy)]
pub struct UnnamedStruct(pub u8, pub u16);

/// A record with named fields.
#[derive(Debug, PartialEq, Eq, Structural, Clone, Copy)]
pub struct NamedStruct {
    /// First field.
    pub a: u8,
    /// Second field.
    pub b: u16,
}

/// A sum type with one variant of each field shape.
#[derive(Debug, PartialEq, Eq, Structural, Clone, Copy)]
pub enum MyEnum {
    /// A variant with no fields.
    Unit,
    /// A variant with positional fields.
    Unnamed(u8, u16),
    /// A variant with named fields.
    Named {
        /// First field.
        a: u8,
        /// Second field.
        b: u16,
    },
}

impl Encode for UnitStruct {
    open spec fn wire(&self, e: Endianness) -> Seq<u8> {
        Seq::empty()
    }

    fn size(&self) -> (n: usize)
    {
        0
    }

    fn encode_to(&self, config: &Config, writer: &mut Vec<u8>) -> (n: usize)
    {
        proof {
            assert(writer@ =~= writer@ + Seq::<u8>::empty());
        }
        0
    }
}

impl Decode for UnitStruct {
    type Model = UnitStruct;

    open spec fn model(self) -> UnitStruct {
        self
    }

    open spec fn dec(e: Endianness, s: Seq<u8>) -> Result<(UnitStruct, int), Error> {
        Ok((UnitStruct, 0))
    }

    proof fn lemma_dec_bounds(e: Endianness, s: Seq<u8>) {
    }

    fn decode_from(config: &Config, reader: &mut ByteReader) -> (r: Result<Self, Error>) {
        Ok(UnitStruct)
    }
}

impl Lossless for UnitStruct {
    proof fn lemma_round_trip(&self, e: Endianness, tail: Seq<u8>) {
    }
}

impl Encode for UnnamedStruct {
    open spec fn wire(&self, e: Endianness) -> Seq<u8> {
        self.0.wire(e) + self.1.wire(e)
    }

    fn size(&self) -> (n: usize)
    {
        self.0.size() + self.1.size()
    }

    fn encode_to(&self, config: &Config, writer: &mut Vec<u8>) -> (n: usize)
    {
        let n0: usize = self.0.encode_to(config, writer);
        let n1: usize = self.1.encode_to(config, writer);
        proof {
            assert(writer@ =~= old(writer)@ + self.wire(config.endianness));
        }
        n0 + n1
    }
}

impl Decode for UnnamedStruct {
    type Model = UnnamedStruct;

    open spec fn model(self) -> UnnamedStruct {
        self
    }

    open spec fn dec(e: Endianness, s: Seq<u8>) -> Result<(UnnamedStruct, int), Error> {
        match <(u8, u16) as Decode>::dec(e, s) {
            Ok(((a, b), n)) => Ok((UnnamedStruct(a, b), n)),
            Err(err) => Err(err),
        }
    }

    proof fn lemma_dec_bounds(e: Endianness, s: Seq<u8>) {
        <(u8, u16) as Decode>::lemma_dec_bounds(e, s);
    }

    fn decode_from(config: &Config, reader: &mut ByteReader) -> (r: Result<Self, Error>) {
        match <(u8, u16) as Decode>::decode_from(config, reader) {
            Ok((a, b)) => Ok(UnnamedStruct(a, b)),
            Err(err) => Err(err),
        }
    }
}

impl Lossless for UnnamedStruct {
    proof fn lemma_round_trip(&self, e: Endianness, tail: Seq<u8>) {
        let pair = (self.0, self.1);
        assert(pair.wire(e) == self.wire(e));
        pair.lemma_round_trip(e, tail);
    }
}

impl Encode for NamedStruct {
    open spec fn wire(&self, e: Endianness) -> Seq<u8> {
        self.a.wire(e) + self.b.wire(e)
    }

    fn size(&self) -> (n: usize)
    {
        self.a.size() + self.b.size()
    }

    fn encode_to(&self, config: &Config, writer: &mut Vec<u8>) -> (n: usize)
    {
        let n0: usize = self.a.encode_to(config, writer);
        let n1: usize = self.b.encode_to(config, writer);
        proof {
            assert(writer@ =~= old(writer)@ + self.wire(config.endianness));
        }
        n0 + n1
    }
}

impl Decode for NamedStruct {
    type Model = NamedStruct;

    open spec fn model(self) -> NamedStruct {
        self
    }

    open spec fn dec(e: Endianness, s: Seq<u8>) -> Result<(NamedStruct, int), Error> {
        match <(u8, u16) as Decode>::dec(e, s) {
            Ok(((a, b), n)) => Ok((NamedStruct { a, b }, n)),
            Err(err) => Err(err),
        }
    }

    proof fn lemma_dec_bounds(e: Endianness, s: Seq<u8>) {
        <(u8, u16) as Decode>::lemma_dec_bounds(e, s);
    }

    fn decode_from(config: &Config, reader: &mut ByteReader) -> (r: Result<Self, Error>) {
        match <(u8, u16) as Decode>::decode_from(config, reader) {
            Ok((a, b)) => Ok(NamedStruct { a, b }),
            Err(err) => Err(err),
        }
    }
}

impl Lossless for NamedStruct {
    proof fn lemma_round_trip(&self, e: Endianness, tail: Seq<u8>) {
        let pair = (self.a, self.b);
        assert(pair.wire(e) == self.wire(e));
        pair.lemma_round_trip(e, tail);
    }
}

impl Encode for MyEnum {
    /// A base-128 tag holding the variant index, then the variant's fields
    /// in declared order.
    open spec fn wire(&self, e: Endianness) -> Seq<u8> {
        match self {
            MyEnum::Unit => varint_wire(0),
            MyEnum::Unnamed(a, b) => varint_wire(1) + a.wire(e) + b.wire(e),
            MyEnum::Named { a, b } => varint_wire(2) + a.wire(e) + b.wire(e),
        }
    }

    fn size(&self) -> (n: usize)
    {
        match self {
            MyEnum::Unit => VarInt::from_u128(0).size(),
            MyEnum::Unnamed(a, b) => VarInt::from_u128(1).size() + a.size() + b.size(),
            MyEnum::Named { a, b } => VarInt::from_u128(2).size() + a.size() + b.size(),
        }
    }

    fn encode_to(&self, config: &Config, writer: &mut Vec<u8>) -> (n: usize)
    {
        match self {
            MyEnum::Unit => {
                let nt: usize = VarInt::from_u128(0).encode_to(config, writer);
                nt
            },
            MyEnum::Unnamed(a, b) => {
                let nt: usize = VarInt::from_u128(1).encode_to(config, writer);
                let na: usize = a.encode_to(config, writer);
                let nb: usize = b.encode_to(config, writer);
                proof {
                    assert(writer@ =~= old(writer)@ + self.wire(config.endianness));
                }
                nt + na + nb
            },
            MyEnum::Named { a, b } => {
                let nt: usize = VarInt::from_u128(2).encode_to(config, writer);
                let na: usize = a.encode_to(config, writer);
                let nb: usize = b.encode_to(config, writer);
                proof {
                    assert(writer@ =~= old(writer)@ + self.wire(config.endianness));
                }
                nt + na + nb
            },
        }
    }
}

impl Decode for MyEnum {
    type Model = MyEnum;

    open spec fn model(self) -> MyEnum {
        self
    }

    /// The tag dispatches on the variant index; an index at or beyond the
    /// variant count is `InvalidEnumVariant` carrying the raw tag.
    open spec fn dec(e: Endianness, s: Seq<u8>) -> Result<(MyEnum, int), Error> {
        match <VarInt as Decode>::dec(e, s) {
            Ok((tag, nt)) => if tag.0 == 0 {
                Ok((MyEnum::Unit, nt))
            } else if tag.0 == 1 {
                match <(u8, u16) as Decode>::dec(e, s.skip(nt)) {
                    Ok(((a, b), nf)) => Ok((MyEnum::Unnamed(a, b), nt + nf)),
                    Err(err) => Err(err),
                }
            } else if tag.0 == 2 {
                match <(u8, u16) as Decode>::dec(e, s.skip(nt)) {
                    Ok(((a, b), nf)) => Ok((MyEnum::Named { a, b }, nt + nf)),
                    Err(err) => Err(err),
                }
            } else {
                Err(Error::InvalidEnumVariant(tag.0))
            },
            Err(err) => Err(err),
        }
    }

    proof fn lemma_dec_bounds(e: Endianness, s: Seq<u8>) {
        <VarInt as Decode>::lemma_dec_bounds(e, s);
        if let Ok((tag, nt)) = <VarInt as Decode>::dec(e, s) {
            <(u8, u16) as Decode>::lemma_dec_bounds(e, s.skip(nt));
        }
    }

    fn decode_from(config: &Config, reader: &mut ByteReader) -> (r: Result<Self, Error>) {
        let ghost e = config.endianness;
        let ghost s0 = old(reader).remaining();
        let tag: VarInt = match <VarInt as Decode>::decode_from(config, reader) {
            Ok(t) => t,
            Err(err) => {
                return Err(err);
            },
        };
        proof {
            if let Ok((m, nt)) = <VarInt as Decode>::dec(e, s0) {
                <VarInt as Decode>::lemma_dec_bounds(e, s0);
                assert(reader.remaining() =~= s0.skip(nt));
            } else {
                assert(false);
            }
        }
        if tag.0 == 0 {
            Ok(MyEnum::Unit)
        } else if tag.0 == 1 {
            match <(u8, u16) as Decode>::decode_from(config, reader) {
                Ok((a, b)) => Ok(MyEnum::Unnamed(a, b)),
                Err(err) => Err(err),
            }
        } else if tag.0 == 2 {
            match <(u8, u16) as Decode>::decode_from(config, reader) {
                Ok((a, b)) => Ok(MyEnum::Named { a, b }),
                Err(err) => Err(err),
            }
        } else {
            Err(Error::InvalidEnumVariant(tag.0))
        }
    }
}

impl Lossless for MyEnum {
    proof fn lemma_round_trip(&self, e: Endianness, tail: Seq<u8>) {
        match self {
            MyEnum::Unit => {
                let tag = VarInt(0);
                tag.lemma_round_trip(e, tail);
                assert(tag.wire(e) + tail == self.wire(e) + tail);
            },
            MyEnum::Unnamed(a, b) => {
                let tag = VarInt(1);
                let pair = (*a, *b);
                let tw = varint_wire(1);
                let pw = pair.wire(e);
                assert(self.wire(e) =~= tw + pw);
                assert(self.wire(e) + tail =~= tw + (pw + tail));
                tag.lemma_round_trip(e, pw + tail);
                assert((self.wire(e) + tail).skip(tw.len() as int) =~= pw + tail);
                pair.lemma_round_trip(e, tail);
            },
            MyEnum::Named { a, b } => {
                let tag = VarInt(2);
                let pair = (*a, *b);
                let tw = varint_wire(2);
                let pw = pair.wire(e);
                assert(self.wire(e) =~= tw + pw);
                assert(self.wire(e) + tail =~= tw + (pw + tail));
                tag.lemma_round_trip(e, pw + tail);
                assert((self.wire(e) + tail).skip(tw.len() as int) =~= pw + tail);
                pair.lemma_round_trip(e, tail);
            },
        }
    }
}

} // verus!
