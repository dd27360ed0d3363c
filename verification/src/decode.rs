//! The read-side capability: per-type construction from a byte stream.

use std::collections::VecDeque;

use vstd::prelude::*;
use vstd::utf8::char_u32_cast;
use vstd::utf8::decode_utf8;
use vstd::utf8::is_scalar;
use vstd::utf8::valid_utf8;

use crate::config::Config;
use crate::config::Endianness;
use crate::error::Error;
use crate::io::ByteReader;
use crate::wire::from_twos_complement;
use crate::wire::i128_of_u;
use crate::wire::i16_of_u;
use crate::wire::i32_of_u;
use crate::wire::i64_of_u;
use crate::wire::i8_of_u;
use crate::wire::isize_of_u;
use crate::wire::lemma_pow256_values;
use crate::wire::lemma_uint_of_wire_bound;
use crate::wire::read_uint;
use crate::wire::uint_of_be;
use crate::wire::uint_of_le;
use crate::wire::uint_of_wire;

verus! {

/// Relies on `char::from_u32`: it returns the character with the given
/// code point exactly when the code point is a Unicode scalar value, and
/// `None` otherwise.
pub assume_specification[ char::from_u32 ](i: u32) -> (c: Option<char>)
    ensures
        c matches Some(ch) ==> is_scalar(i) && ch as u32 == i,
        c is None ==> !is_scalar(i),
;

/// Trait for decoding values.
///
/// `dec` is a deterministic specification parser: on the bytes not yet
/// consumed it either yields the decoded value's model together with the
/// number of bytes the value occupies, or the error the decoder owes.
/// `decode_from` agrees with it exactly: it returns the value whose model
/// `dec` yields and consumes exactly that many bytes, or returns exactly
/// the error `dec` yields.
pub trait Decode: Sized {
    /// The mathematical value a decoded `Self` stands for. For a plain
    /// data type this is the type itself; for a container it is built from
    /// the models of the elements.
    type Model;

    /// The model of this value.
    spec fn model(self) -> Self::Model;

    /// The specification parser: what decoding owes on `s`, under byte
    /// order `e`.
    spec fn dec(e: Endianness, s: Seq<u8>) -> Result<(Self::Model, int), Error>;

    /// A successful parse never consumes bytes out of bounds.
    proof fn lemma_dec_bounds(e: Endianness, s: Seq<u8>)
        ensures
            Self::dec(e, s) matches Ok((m, n)) ==> 0 <= n <= s.len(),
    ;

    /// Decodes a value from the reader.
    fn decode_from(config: &Config, reader: &mut ByteReader) -> (r: Result<Self, Error>)
        requires
            old(reader).wf(),
        ensures
            final(reader).wf(),
            final(reader).bytes@ == old(reader).bytes@,
            old(reader).pos <= final(reader).pos,
            match Self::dec(config.endianness, old(reader).remaining()) {
                Ok((m, n)) => r matches Ok(x) && x.model() == m && final(reader).pos == old(
                    reader,
                ).pos + n,
                Err(err) => r matches Err(e2) && e2 == err,
            },
    ;
}

impl Decode for u8 {
    type Model = u8;

    open spec fn model(self) -> u8 {
        self
    }

    open spec fn dec(e: Endianness, s: Seq<u8>) -> Result<(u8, int), Error> {
        if s.len() >= 1 {
            Ok((uint_of_wire(s.take(1), e) as u8, 1))
        } else {
            Err(Error::IoError)
        }
    }

    proof fn lemma_dec_bounds(e: Endianness, s: Seq<u8>) {
    }

    fn decode_from(config: &Config, reader: &mut ByteReader) -> (r: Result<Self, Error>) {
        let v: u128 = match read_uint(reader, 1, config.endianness) {
            Ok(v) => v,
            Err(err) => {
                return Err(err);
            },
        };
        proof {
            lemma_uint_of_wire_bound(old(reader).remaining().take(1), config.endianness);
            lemma_pow256_values();
        }
        Ok(v as u8)
    }
}

impl Decode for u16 {
    type Model = u16;

    open spec fn model(self) -> u16 {
        self
    }

    open spec fn dec(e: Endianness, s: Seq<u8>) -> Result<(u16, int), Error> {
        if s.len() >= 2 {
            Ok((uint_of_wire(s.take(2), e) as u16, 2))
        } else {
            Err(Error::IoError)
        }
    }

    proof fn lemma_dec_bounds(e: Endianness, s: Seq<u8>) {
    }

    fn decode_from(config: &Config, reader: &mut ByteReader) -> (r: Result<Self, Error>) {
        let v: u128 = match read_uint(reader, 2, config.endianness) {
            Ok(v) => v,
            Err(err) => {
                return Err(err);
            },
        };
        proof {
            lemma_uint_of_wire_bound(old(reader).remaining().take(2), config.endianness);
            lemma_pow256_values();
        }
        Ok(v as u16)
    }
}

impl Decode for u32 {
    type Model = u32;

    open spec fn model(self) -> u32 {
        self
    }

    open spec fn dec(e: Endianness, s: Seq<u8>) -> Result<(u32, int), Error> {
        if s.len() >= 4 {
            Ok((uint_of_wire(s.take(4), e) as u32, 4))
        } else {
            Err(Error::IoError)
        }
    }

    proof fn lemma_dec_bounds(e: Endianness, s: Seq<u8>) {
    }

    fn decode_from(config: &Config, reader: &mut ByteReader) -> (r: Result<Self, Error>) {
        let v: u128 = match read_uint(reader, 4, config.endianness) {
            Ok(v) => v,
            Err(err) => {
                return Err(err);
            },
        };
        proof {
            lemma_uint_of_wire_bound(old(reader).remaining().take(4), config.endianness);
            lemma_pow256_values();
        }
        Ok(v as u32)
    }
}

impl Decode for u64 {
    type Model = u64;

    open spec fn model(self) -> u64 {
        self
    }

    open spec fn dec(e: Endianness, s: Seq<u8>) -> Result<(u64, int), Error> {
        if s.len() >= 8 {
            Ok((uint_of_wire(s.take(8), e) as u64, 8))
        } else {
            Err(Error::IoError)
        }
    }

    proof fn lemma_dec_bounds(e: Endianness, s: Seq<u8>) {
    }

    fn decode_from(config: &Config, reader: &mut ByteReader) -> (r: Result<Self, Error>) {
        let v: u128 = match read_uint(reader, 8, config.endianness) {
            Ok(v) => v,
            Err(err) => {
                return Err(err);
            },
        };
        proof {
            lemma_uint_of_wire_bound(old(reader).remaining().take(8), config.endianness);
            lemma_pow256_values();
        }
        Ok(v as u64)
    }
}

impl Decode for u128 {
    type Model = u128;

    open spec fn model(self) -> u128 {
        self
    }

    open spec fn dec(e: Endianness, s: Seq<u8>) -> Result<(u128, int), Error> {
        if s.len() >= 16 {
            Ok((uint_of_wire(s.take(16), e) as u128, 16))
        } else {
            Err(Error::IoError)
        }
    }

    proof fn lemma_dec_bounds(e: Endianness, s: Seq<u8>) {
    }

    fn decode_from(config: &Config, reader: &mut ByteReader) -> (r: Result<Self, Error>) {
        let v: u128 = match read_uint(reader, 16, config.endianness) {
            Ok(v) => v,
            Err(err) => {
                return Err(err);
            },
        };
        proof {
            lemma_uint_of_wire_bound(old(reader).remaining().take(16), config.endianness);
            lemma_pow256_values();
        }
        Ok(v)
    }
}

impl Decode for usize {
    type Model = usize;

    open spec fn model(self) -> usize {
        self
    }

    /// The 8-byte index field fails with an integral-conversion error when
    /// its value does not fit the native index type.
    open spec fn dec(e: Endianness, s: Seq<u8>) -> Result<(usize, int), Error> {
        if s.len() >= 8 {
            if uint_of_wire(s.take(8), e) <= usize::MAX {
                Ok((uint_of_wire(s.take(8), e) as usize, 8))
            } else {
                Err(Error::TryFromIntError)
            }
        } else {
            Err(Error::IoError)
        }
    }

    proof fn lemma_dec_bounds(e: Endianness, s: Seq<u8>) {
    }

    fn decode_from(config: &Config, reader: &mut ByteReader) -> (r: Result<Self, Error>) {
        let v: u128 = match read_uint(reader, 8, config.endianness) {
            Ok(v) => v,
            Err(err) => {
                return Err(err);
            },
        };
        proof {
            lemma_uint_of_wire_bound(old(reader).remaining().take(8), config.endianness);
            lemma_pow256_values();
        }
        if v <= usize::MAX as u128 {
            Ok(v as usize)
        } else {
            Err(Error::TryFromIntError)
        }
    }
}

impl Decode for i8 {
    type Model = i8;

    open spec fn model(self) -> i8 {
        self
    }

    open spec fn dec(e: Endianness, s: Seq<u8>) -> Result<(i8, int), Error> {
        if s.len() >= 1 {
            Ok((from_twos_complement(uint_of_wire(s.take(1), e), 1) as i8, 1))
        } else {
            Err(Error::IoError)
        }
    }

    proof fn lemma_dec_bounds(e: Endianness, s: Seq<u8>) {
    }

    fn decode_from(config: &Config, reader: &mut ByteReader) -> (r: Result<Self, Error>) {
        let v: u128 = match read_uint(reader, 1, config.endianness) {
            Ok(v) => v,
            Err(err) => {
                return Err(err);
            },
        };
        proof {
            lemma_uint_of_wire_bound(old(reader).remaining().take(1), config.endianness);
            lemma_pow256_values();
        }
        Ok(i8_of_u(v as u8))
    }
}

impl Decode for i16 {
    type Model = i16;

    open spec fn model(self) -> i16 {
        self
    }

    open spec fn dec(e: Endianness, s: Seq<u8>) -> Result<(i16, int), Error> {
        if s.len() >= 2 {
            Ok((from_twos_complement(uint_of_wire(s.take(2), e), 2) as i16, 2))
        } else {
            Err(Error::IoError)
        }
    }

    proof fn lemma_dec_bounds(e: Endianness, s: Seq<u8>) {
    }

    fn decode_from(config: &Config, reader: &mut ByteReader) -> (r: Result<Self, Error>) {
        let v: u128 = match read_uint(reader, 2, config.endianness) {
            Ok(v) => v,
            Err(err) => {
                return Err(err);
            },
        };
        proof {
            lemma_uint_of_wire_bound(old(reader).remaining().take(2), config.endianness);
            lemma_pow256_values();
        }
        Ok(i16_of_u(v as u16))
    }
}

impl Decode for i32 {
    type Model = i32;

    open spec fn model(self) -> i32 {
        self
    }

    open spec fn dec(e: Endianness, s: Seq<u8>) -> Result<(i32, int), Error> {
        if s.len() >= 4 {
            Ok((from_twos_complement(uint_of_wire(s.take(4), e), 4) as i32, 4))
        } else {
            Err(Error::IoError)
        }
    }

    proof fn lemma_dec_bounds(e: Endianness, s: Seq<u8>) {
    }

    fn decode_from(config: &Config, reader: &mut ByteReader) -> (r: Result<Self, Error>) {
        let v: u128 = match read_uint(reader, 4, config.endianness) {
            Ok(v) => v,
            Err(err) => {
                return Err(err);
            },
        };
        proof {
            lemma_uint_of_wire_bound(old(reader).remaining().take(4), config.endianness);
            lemma_pow256_values();
        }
        Ok(i32_of_u(v as u32))
    }
}

impl Decode for i64 {
    type Model = i64;

    open spec fn model(self) -> i64 {
        self
    }

    open spec fn dec(e: Endianness, s: Seq<u8>) -> Result<(i64, int), Error> {
        if s.len() >= 8 {
            Ok((from_twos_complement(uint_of_wire(s.take(8), e), 8) as i64, 8))
        } else {
            Err(Error::IoError)
        }
    }

    proof fn lemma_dec_bounds(e: Endianness, s: Seq<u8>) {
    }

    fn decode_from(config: &Config, reader: &mut ByteReader) -> (r: Result<Self, Error>) {
        let v: u128 = match read_uint(reader, 8, config.endianness) {
            Ok(v) => v,
            Err(err) => {
                return Err(err);
            },
        };
        proof {
            lemma_uint_of_wire_bound(old(reader).remaining().take(8), config.endianness);
            lemma_pow256_values();
        }
        Ok(i64_of_u(v as u64))
    }
}

impl Decode for i128 {
    type Model = i128;

    open spec fn model(self) -> i128 {
        self
    }

    open spec fn dec(e: Endianness, s: Seq<u8>) -> Result<(i128, int), Error> {
        if s.len() >= 16 {
            Ok((from_twos_complement(uint_of_wire(s.take(16), e), 16) as i128, 16))
        } else {
            Err(Error::IoError)
        }
    }

    proof fn lemma_dec_bounds(e: Endianness, s: Seq<u8>) {
    }

    fn decode_from(config: &Config, reader: &mut ByteReader) -> (r: Result<Self, Error>) {
        let v: u128 = match read_uint(reader, 16, config.endianness) {
            Ok(v) => v,
            Err(err) => {
                return Err(err);
            },
        };
        proof {
            lemma_uint_of_wire_bound(old(reader).remaining().take(16), config.endianness);
            lemma_pow256_values();
        }
        Ok(i128_of_u(v))
    }
}

impl Decode for isize {
    type Model = isize;

    open spec fn model(self) -> isize {
        self
    }

    /// The signed 8-byte index field fails with an integral-conversion
    /// error when its value does not fit the native index type.
    open spec fn dec(e: Endianness, s: Seq<u8>) -> Result<(isize, int), Error> {
        if s.len() >= 8 {
            if isize::MIN <= from_twos_complement(uint_of_wire(s.take(8), e), 8) <= isize::MAX {
                Ok((from_twos_complement(uint_of_wire(s.take(8), e), 8) as isize, 8))
            } else {
                Err(Error::TryFromIntError)
            }
        } else {
            Err(Error::IoError)
        }
    }

    proof fn lemma_dec_bounds(e: Endianness, s: Seq<u8>) {
    }

    fn decode_from(config: &Config, reader: &mut ByteReader) -> (r: Result<Self, Error>) {
        let v: u128 = match read_uint(reader, 8, config.endianness) {
            Ok(v) => v,
            Err(err) => {
                return Err(err);
            },
        };
        proof {
            lemma_uint_of_wire_bound(old(reader).remaining().take(8), config.endianness);
            lemma_pow256_values();
        }
        isize_of_u(v as u64)
    }
}

impl Decode for bool {
    type Model = bool;

    open spec fn model(self) -> bool {
        self
    }

    /// Any non-zero byte decodes to `true`, as the source byte `b` decodes
    /// through `b != 0`.
    open spec fn dec(e: Endianness, s: Seq<u8>) -> Result<(bool, int), Error> {
        if s.len() >= 1 {
            Ok((s[0] != 0, 1))
        } else {
            Err(Error::IoError)
        }
    }

    proof fn lemma_dec_bounds(e: Endianness, s: Seq<u8>) {
    }

    fn decode_from(config: &Config, reader: &mut ByteReader) -> (r: Result<Self, Error>) {
        let b: u8 = match reader.read_byte() {
            Ok(b) => b,
            Err(err) => {
                return Err(err);
            },
        };
        Ok(b != 0)
    }
}

impl Decode for char {
    type Model = char;

    open spec fn model(self) -> char {
        self
    }

    /// A 32-bit code point; one that is not a Unicode scalar value is
    /// rejected with `InvalidChar` carrying the raw code point.
    open spec fn dec(e: Endianness, s: Seq<u8>) -> Result<(char, int), Error> {
        if s.len() >= 4 {
            if is_scalar(uint_of_wire(s.take(4), e) as u32) {
                Ok(((uint_of_wire(s.take(4), e) as u32) as char, 4))
            } else {
                Err(Error::InvalidChar(uint_of_wire(s.take(4), e) as u32))
            }
        } else {
            Err(Error::IoError)
        }
    }

    proof fn lemma_dec_bounds(e: Endianness, s: Seq<u8>) {
    }

    fn decode_from(config: &Config, reader: &mut ByteReader) -> (r: Result<Self, Error>) {
        let v: u128 = match read_uint(reader, 4, config.endianness) {
            Ok(v) => v,
            Err(err) => {
                return Err(err);
            },
        };
        proof {
            lemma_uint_of_wire_bound(old(reader).remaining().take(4), config.endianness);
            lemma_pow256_values();
        }
        let code: u32 = v as u32;
        match char::from_u32(code) {
            Some(c) => {
                proof {
                    char_u32_cast(c, code);
                }
                Ok(c)
            },
            None => Err(Error::InvalidChar(code)),
        }
    }
}

/// The models of a sequence of values, element by element.
pub open spec fn seq_models<T: Decode>(s: Seq<T>) -> Seq<T::Model> {
    s.map_values(|x: T| x.model())
}

/// The specification parser for `count` consecutive values: the models and
/// the total byte count on success, or the error of the first element that
/// fails.
pub open spec fn seq_dec<T: Decode>(e: Endianness, s: Seq<u8>, count: nat) -> Result<
    (Seq<T::Model>, int),
    Error,
>
    decreases count,
{
    if count == 0 {
        Ok((Seq::empty(), 0))
    } else {
        match T::dec(e, s) {
            Ok((m, n)) => match seq_dec::<T>(e, s.skip(n), (count - 1) as nat) {
                Ok((ms, t)) => Ok((seq![m] + ms, n + t)),
                Err(err) => Err(err),
            },
            Err(err) => Err(err),
        }
    }
}

/// A successful sequence parse yields one model per element and never
/// consumes bytes out of bounds.
pub proof fn lemma_seq_dec_bounds<T: Decode>(e: Endianness, s: Seq<u8>, count: nat)
    ensures
        seq_dec::<T>(e, s, count) matches Ok((ms, n)) ==> 0 <= n <= s.len() && ms.len() == count,
    decreases count,
{
    if count > 0 {
        T::lemma_dec_bounds(e, s);
        if let Ok((m, n)) = T::dec(e, s) {
            lemma_seq_dec_bounds::<T>(e, s.skip(n), (count - 1) as nat);
        }
    }
}

impl<T: Decode> Decode for Option<T> {
    type Model = Option<T::Model>;

    open spec fn model(self) -> Option<T::Model> {
        match self {
            Option::None => Option::None,
            Option::Some(v) => Option::Some(v.model()),
        }
    }

    /// One discriminant byte: 0 is `None`, 1 is `Some` followed by the
    /// inner value; anything else is `InvalidEnumVariant` carrying the raw
    /// tag.
    open spec fn dec(e: Endianness, s: Seq<u8>) -> Result<(Option<T::Model>, int), Error> {
        if s.len() < 1 {
            Err(Error::IoError)
        } else if s[0] == 0 {
            Ok((Option::None, 1))
        } else if s[0] == 1 {
            match T::dec(e, s.skip(1)) {
                Ok((m, n)) => Ok((Option::Some(m), 1 + n)),
                Err(err) => Err(err),
            }
        } else {
            Err(Error::InvalidEnumVariant(s[0] as u128))
        }
    }

    proof fn lemma_dec_bounds(e: Endianness, s: Seq<u8>) {
        if s.len() >= 1 && s[0] == 1 {
            T::lemma_dec_bounds(e, s.skip(1));
        }
    }

    fn decode_from(config: &Config, reader: &mut ByteReader) -> (r: Result<Self, Error>) {
        let tag: u8 = match reader.read_byte() {
            Ok(b) => b,
            Err(err) => {
                return Err(err);
            },
        };
        proof {
            assert(reader.remaining() =~= old(reader).remaining().skip(1));
        }
        if tag == 0 {
            Ok(Option::None)
        } else if tag == 1 {
            match T::decode_from(config, reader) {
                Ok(v) => Ok(Option::Some(v)),
                Err(err) => Err(err),
            }
        } else {
            Err(Error::InvalidEnumVariant(tag as u128))
        }
    }
}

/// Parsing `count` single bytes is taking `count` bytes: one byte reads
/// the same in either byte order.
pub proof fn lemma_seq_dec_u8(e: Endianness, s: Seq<u8>, count: nat)
    ensures
        count <= s.len() ==> seq_dec::<u8>(e, s, count) == Ok::<(Seq<u8>, int), Error>(
            (s.take(count as int), count as int),
        ),
        count > s.len() ==> seq_dec::<u8>(e, s, count) == Err::<(Seq<u8>, int), Error>(
            Error::IoError,
        ),
    decreases count,
{
    if count == 0 {
        assert(s.take(0) =~= Seq::<u8>::empty());
    }
    if count > 0 && s.len() > 0 {
        assert(s.take(1).len() == 1);
        assert(s.take(1).drop_first() =~= Seq::<u8>::empty());
        assert(s.take(1)[0] == s[0]);
        assert(s.take(1).take(0) =~= Seq::<u8>::empty());
        assert(uint_of_le(Seq::<u8>::empty()) == 0);
        assert(uint_of_be(Seq::<u8>::empty()) == 0);
        assert(uint_of_le(s.take(1)) == s[0] as nat);
        assert(uint_of_be(s.take(1)) == s[0] as nat);
        assert(uint_of_wire(s.take(1), e) == s[0] as nat);
        lemma_seq_dec_u8(e, s.skip(1), (count - 1) as nat);
        assert(<u8 as Decode>::dec(e, s) == Ok::<(u8, int), Error>((s[0], 1)));
        if count <= s.len() {
            assert(seq_dec::<u8>(e, s.skip(1), (count - 1) as nat) == Ok::<(Seq<u8>, int), Error>(
                (s.skip(1).take(count - 1), (count - 1) as int),
            ));
            assert(seq![s[0]] + s.skip(1).take(count - 1) =~= s.take(count as int));
            assert(seq_dec::<u8>(e, s, count) == Ok::<(Seq<u8>, int), Error>(
                (seq![s[0]] + s.skip(1).take(count - 1), count as int),
            ));
        }
    }
}

/// Relies on the std conversion from `Vec<T>` to `[T; N]`: a vector of
/// length exactly `N` becomes the array of its elements, in order.
#[verifier::external_body]
fn vec_into_array<T, const N: usize>(v: Vec<T>) -> (r: [T; N])
    requires
        v@.len() == N,
    ensures
        r@ == v@,
{
    let res: Result<[T; N], Vec<T>> = v.try_into();
    res.ok().unwrap()
}

impl<T: Decode, const N: usize> Decode for [T; N] {
    type Model = Seq<T::Model>;

    open spec fn model(self) -> Seq<T::Model> {
        seq_models(self@)
    }

    /// Exactly `N` elements, no prefix: the length is static. A short
    /// stream surfaces as the failing element's own error.
    open spec fn dec(e: Endianness, s: Seq<u8>) -> Result<(Seq<T::Model>, int), Error> {
        seq_dec::<T>(e, s, N as nat)
    }

    proof fn lemma_dec_bounds(e: Endianness, s: Seq<u8>) {
        lemma_seq_dec_bounds::<T>(e, s, N as nat);
    }

    fn decode_from(config: &Config, reader: &mut ByteReader) -> (r: Result<Self, Error>) {
        let ghost e = config.endianness;
        let ghost s1 = old(reader).remaining();
        let ghost pos1 = old(reader).pos;
        proof {
            assert(seq_models(Seq::<T>::empty()) =~= Seq::<T::Model>::empty());
            if let Ok((ms, n)) = seq_dec::<T>(e, s1, N as nat) {
                assert(Seq::<T::Model>::empty() + ms =~= ms);
            }
        }
        let mut out: Vec<T> = Vec::new();
        let mut i: usize = 0;
        while i < N
            invariant
                reader.wf(),
                reader.bytes@ == old(reader).bytes@,
                e == config.endianness,
                i <= N,
                out@.len() == i,
                pos1 == old(reader).pos,
                pos1 <= reader.pos,
                s1 == old(reader).remaining(),
                s1 == old(reader).bytes@.skip(pos1 as int),
                match seq_dec::<T>(e, reader.remaining(), (N - i) as nat) {
                    Ok((ms, n)) => seq_dec::<T>(e, s1, N as nat) == Ok::<
                        (Seq<T::Model>, int),
                        Error,
                    >((seq_models(out@) + ms, (reader.pos - pos1) + n)),
                    Err(err) => seq_dec::<T>(e, s1, N as nat) == Err::<
                        (Seq<T::Model>, int),
                        Error,
                    >(err),
                },
            decreases N - i,
        {
            let ghost rem_i = reader.remaining();
            let x: T = match T::decode_from(config, reader) {
                Ok(x) => x,
                Err(err) => {
                    return Err(err);
                },
            };
            proof {
                if let Ok((m, nb)) = T::dec(e, rem_i) {
                    T::lemma_dec_bounds(e, rem_i);
                    assert(reader.remaining() =~= rem_i.skip(nb));
                    assert(seq_models(out@.push(x)) =~= seq_models(out@).push(m));
                    if let Ok((ms2, t2)) = seq_dec::<T>(e, reader.remaining(), (N - i
                        - 1) as nat) {
                        assert(seq_dec::<T>(e, rem_i, (N - i) as nat) == Ok::<
                            (Seq<T::Model>, int),
                            Error,
                        >((seq![m] + ms2, nb + t2)));
                        assert(seq_models(out@) + (seq![m] + ms2) =~= seq_models(out@.push(x))
                            + ms2);
                    }
                } else {
                    assert(false);
                }
            }
            out.push(x);
            i = i + 1;
        }
        proof {
            assert(seq_models(out@) + Seq::<T::Model>::empty() =~= seq_models(out@));
        }
        let arr: [T; N] = vec_into_array(out);
        proof {
            assert(seq_models(arr@) =~= seq_models(out@));
        }
        Ok(arr)
    }
}

/// Relies on `String::from_utf8`: it returns the string whose UTF-8
/// encoding is the given bytes exactly when they are valid UTF-8, and
/// rejects anything else.
#[verifier::external_body]
fn bytes_to_string(bytes: Vec<u8>) -> (r: Result<String, Error>)
    ensures
        r matches Ok(s) ==> valid_utf8(bytes@) && s@ == decode_utf8(bytes@),
        r matches Err(err) ==> !valid_utf8(bytes@) && err == Error::InvalidUtf8String,
{
    match String::from_utf8(bytes) {
        Ok(s) => Ok(s),
        Err(_) => Err(Error::InvalidUtf8String),
    }
}

impl Decode for String {
    type Model = Seq<char>;

    open spec fn model(self) -> Seq<char> {
        self@
    }

    /// Text decodes as a byte-sequence container whose bytes must be valid
    /// UTF-8.
    open spec fn dec(e: Endianness, s: Seq<u8>) -> Result<(Seq<char>, int), Error> {
        match <Vec<u8> as Decode>::dec(e, s) {
            Ok((bytes, n)) => if valid_utf8(bytes) {
                Ok((decode_utf8(bytes), n))
            } else {
                Err(Error::InvalidUtf8String)
            },
            Err(err) => Err(err),
        }
    }

    proof fn lemma_dec_bounds(e: Endianness, s: Seq<u8>) {
        <Vec<u8> as Decode>::lemma_dec_bounds(e, s);
    }

    fn decode_from(config: &Config, reader: &mut ByteReader) -> (r: Result<Self, Error>) {
        let bytes: Vec<u8> = match <Vec<u8> as Decode>::decode_from(config, reader) {
            Ok(b) => b,
            Err(err) => {
                return Err(err);
            },
        };
        proof {
            assert(seq_models(bytes@) =~= bytes@);
        }
        bytes_to_string(bytes)
    }
}

impl<T: Decode> Decode for Vec<T> {
    type Model = Seq<T::Model>;

    open spec fn model(self) -> Seq<T::Model> {
        seq_models(self@)
    }

    /// An 8-byte length prefix, then that many elements. A length that
    /// does not fit the native index type fails fast with `InvalidLength`,
    /// before any allocation.
    open spec fn dec(e: Endianness, s: Seq<u8>) -> Result<(Seq<T::Model>, int), Error> {
        if s.len() < 8 {
            Err(Error::IoError)
        } else if uint_of_wire(s.take(8), e) > usize::MAX {
            Err(Error::InvalidLength(uint_of_wire(s.take(8), e) as u64))
        } else {
            match seq_dec::<T>(e, s.skip(8), uint_of_wire(s.take(8), e)) {
                Ok((ms, n)) => Ok((ms, 8 + n)),
                Err(err) => Err(err),
            }
        }
    }

    proof fn lemma_dec_bounds(e: Endianness, s: Seq<u8>) {
        if s.len() >= 8 && uint_of_wire(s.take(8), e) <= usize::MAX {
            lemma_seq_dec_bounds::<T>(e, s.skip(8), uint_of_wire(s.take(8), e));
        }
    }

    fn decode_from(config: &Config, reader: &mut ByteReader) -> (r: Result<Self, Error>) {
        let ghost e = config.endianness;
        let ghost s0 = old(reader).remaining();
        let lenv: u128 = match read_uint(reader, 8, config.endianness) {
            Ok(v) => v,
            Err(err) => {
                return Err(err);
            },
        };
        proof {
            lemma_uint_of_wire_bound(s0.take(8), e);
            lemma_pow256_values();
        }
        if lenv > usize::MAX as u128 {
            return Err(Error::InvalidLength(lenv as u64));
        }
        let count: usize = lenv as usize;
        let ghost pos1 = reader.pos;
        let ghost s1 = reader.remaining();
        proof {
            assert(s1 =~= s0.skip(8));
            assert(seq_models(Seq::<T>::empty()) =~= Seq::<T::Model>::empty());
            if let Ok((ms, n)) = seq_dec::<T>(e, s1, count as nat) {
                assert(Seq::<T::Model>::empty() + ms =~= ms);
            }
        }
        let mut out: Vec<T> = Vec::new();
        let mut i: usize = 0;
        while i < count
            invariant
                reader.wf(),
                reader.bytes@ == old(reader).bytes@,
                e == config.endianness,
                i <= count,
                out@.len() == i,
                old(reader).pos <= pos1 <= reader.pos,
                s0 == old(reader).remaining(),
                s0.len() >= 8,
                pos1 == old(reader).pos + 8,
                s1 == s0.skip(8),
                s1 == old(reader).bytes@.skip(pos1 as int),
                lenv as nat == uint_of_wire(s0.take(8), e),
                lenv <= usize::MAX,
                count == lenv,
                match seq_dec::<T>(e, reader.remaining(), (count - i) as nat) {
                    Ok((ms, n)) => seq_dec::<T>(e, s1, count as nat) == Ok::<
                        (Seq<T::Model>, int),
                        Error,
                    >((seq_models(out@) + ms, (reader.pos - pos1) + n)),
                    Err(err) => seq_dec::<T>(e, s1, count as nat) == Err::<
                        (Seq<T::Model>, int),
                        Error,
                    >(err),
                },
            decreases count - i,
        {
            let ghost rem_i = reader.remaining();
            let x: T = match T::decode_from(config, reader) {
                Ok(x) => x,
                Err(err) => {
                    return Err(err);
                },
            };
            proof {
                if let Ok((m, nb)) = T::dec(e, rem_i) {
                    T::lemma_dec_bounds(e, rem_i);
                    assert(reader.remaining() =~= rem_i.skip(nb));
                    assert(seq_models(out@.push(x)) =~= seq_models(out@).push(m));
                    if let Ok((ms2, t2)) = seq_dec::<T>(e, reader.remaining(), (count - i
                        - 1) as nat) {
                        assert(seq_dec::<T>(e, rem_i, (count - i) as nat) == Ok::<
                            (Seq<T::Model>, int),
                            Error,
                        >((seq![m] + ms2, nb + t2)));
                        assert(seq_models(out@) + (seq![m] + ms2) =~= seq_models(out@.push(x))
                            + ms2);
                    }
                } else {
                    assert(false);
                }
            }
            out.push(x);
            i = i + 1;
        }
        proof {
            assert(seq_models(out@) + Seq::<T::Model>::empty() =~= seq_models(out@));
        }
        Ok(out)
    }
}

impl<T: Decode> Decode for VecDeque<T> {
    type Model = Seq<T::Model>;

    open spec fn model(self) -> Seq<T::Model> {
        seq_models(self@)
    }

    /// A double-ended queue decodes exactly as a vector: an 8-byte length
    /// prefix, then that many elements pushed at the back.
    open spec fn dec(e: Endianness, s: Seq<u8>) -> Result<(Seq<T::Model>, int), Error> {
        if s.len() < 8 {
            Err(Error::IoError)
        } else if uint_of_wire(s.take(8), e) > usize::MAX {
            Err(Error::InvalidLength(uint_of_wire(s.take(8), e) as u64))
        } else {
            match seq_dec::<T>(e, s.skip(8), uint_of_wire(s.take(8), e)) {
                Ok((ms, n)) => Ok((ms, 8 + n)),
                Err(err) => Err(err),
            }
        }
    }

    proof fn lemma_dec_bounds(e: Endianness, s: Seq<u8>) {
        if s.len() >= 8 && uint_of_wire(s.take(8), e) <= usize::MAX {
            lemma_seq_dec_bounds::<T>(e, s.skip(8), uint_of_wire(s.take(8), e));
        }
    }

    fn decode_from(config: &Config, reader: &mut ByteReader) -> (r: Result<Self, Error>) {
        let ghost e = config.endianness;
        let ghost s0 = old(reader).remaining();
        let lenv: u128 = match read_uint(reader, 8, config.endianness) {
            Ok(v) => v,
            Err(err) => {
                return Err(err);
            },
        };
        proof {
            lemma_uint_of_wire_bound(s0.take(8), e);
            lemma_pow256_values();
        }
        if lenv > usize::MAX as u128 {
            return Err(Error::InvalidLength(lenv as u64));
        }
        let count: usize = lenv as usize;
        let ghost pos1 = reader.pos;
        let ghost s1 = reader.remaining();
        proof {
            assert(s1 =~= s0.skip(8));
            assert(seq_models(Seq::<T>::empty()) =~= Seq::<T::Model>::empty());
            if let Ok((ms, n)) = seq_dec::<T>(e, s1, count as nat) {
                assert(Seq::<T::Model>::empty() + ms =~= ms);
            }
        }
        let mut out: VecDeque<T> = VecDeque::new();
        let mut i: usize = 0;
        while i < count
            invariant
                reader.wf(),
                reader.bytes@ == old(reader).bytes@,
                e == config.endianness,
                i <= count,
                out@.len() == i,
                old(reader).pos <= pos1 <= reader.pos,
                s0 == old(reader).remaining(),
                s0.len() >= 8,
                pos1 == old(reader).pos + 8,
                s1 == s0.skip(8),
                s1 == old(reader).bytes@.skip(pos1 as int),
                lenv as nat == uint_of_wire(s0.take(8), e),
                lenv <= usize::MAX,
                count == lenv,
                match seq_dec::<T>(e, reader.remaining(), (count - i) as nat) {
                    Ok((ms, n)) => seq_dec::<T>(e, s1, count as nat) == Ok::<
                        (Seq<T::Model>, int),
                        Error,
                    >((seq_models(out@) + ms, (reader.pos - pos1) + n)),
                    Err(err) => seq_dec::<T>(e, s1, count as nat) == Err::<
                        (Seq<T::Model>, int),
                        Error,
                    >(err),
                },
            decreases count - i,
        {
            let ghost rem_i = reader.remaining();
            let x: T = match T::decode_from(config, reader) {
                Ok(x) => x,
                Err(err) => {
                    return Err(err);
                },
            };
            proof {
                if let Ok((m, nb)) = T::dec(e, rem_i) {
                    T::lemma_dec_bounds(e, rem_i);
                    assert(reader.remaining() =~= rem_i.skip(nb));
                    assert(seq_models(out@.push(x)) =~= seq_models(out@).push(m));
                    if let Ok((ms2, t2)) = seq_dec::<T>(e, reader.remaining(), (count - i
                        - 1) as nat) {
                        assert(seq_dec::<T>(e, rem_i, (count - i) as nat) == Ok::<
                            (Seq<T::Model>, int),
                            Error,
                        >((seq![m] + ms2, nb + t2)));
                        assert(seq_models(out@) + (seq![m] + ms2) =~= seq_models(out@.push(x))
                            + ms2);
                    }
                } else {
                    assert(false);
                }
            }
            out.push_back(x);
            i = i + 1;
        }
        proof {
            assert(seq_models(out@) + Seq::<T::Model>::empty() =~= seq_models(out@));
        }
        Ok(out)
    }
}

impl<T: Decode, E: Decode> Decode for Result<T, E> {
    type Model = Result<T::Model, E::Model>;

    open spec fn model(self) -> Result<T::Model, E::Model> {
        match self {
            Result::Ok(v) => Result::Ok(v.model()),
            Result::Err(err) => Result::Err(err.model()),
        }
    }

    /// One discriminant byte: 0 is `Ok`, 1 is `Err`, each followed by the
    /// payload; anything else is `InvalidEnumVariant` carrying the raw tag.
    open spec fn dec(e: Endianness, s: Seq<u8>) -> Result<(Result<T::Model, E::Model>, int), Error> {
        if s.len() < 1 {
            Err(Error::IoError)
        } else if s[0] == 0 {
            match T::dec(e, s.skip(1)) {
                Ok((m, n)) => Ok((Result::Ok(m), 1 + n)),
                Err(err) => Err(err),
            }
        } else if s[0] == 1 {
            match E::dec(e, s.skip(1)) {
                Ok((m, n)) => Ok((Result::Err(m), 1 + n)),
                Err(err) => Err(err),
            }
        } else {
            Err(Error::InvalidEnumVariant(s[0] as u128))
        }
    }

    proof fn lemma_dec_bounds(e: Endianness, s: Seq<u8>) {
        if s.len() >= 1 && s[0] == 0 {
            T::lemma_dec_bounds(e, s.skip(1));
        }
        if s.len() >= 1 && s[0] == 1 {
            E::lemma_dec_bounds(e, s.skip(1));
        }
    }

    fn decode_from(config: &Config, reader: &mut ByteReader) -> (r: Result<Self, Error>) {
        let tag: u8 = match reader.read_byte() {
            Ok(b) => b,
            Err(err) => {
                return Err(err);
            },
        };
        proof {
            assert(reader.remaining() =~= old(reader).remaining().skip(1));
        }
        if tag == 0 {
            match T::decode_from(config, reader) {
                Ok(v) => Ok(Result::Ok(v)),
                Err(err) => Err(err),
            }
        } else if tag == 1 {
            match E::decode_from(config, reader) {
                Ok(v) => Ok(Result::Err(v)),
                Err(err) => Err(err),
            }
        } else {
            Err(Error::InvalidEnumVariant(tag as u128))
        }
    }
}

impl<T: Decode> Decode for Box<T> {
    type Model = T::Model;

    open spec fn model(self) -> T::Model {
        (*self).model()
    }

    /// An exclusive ownership wrapper decodes as the wrapped value.
    open spec fn dec(e: Endianness, s: Seq<u8>) -> Result<(T::Model, int), Error> {
        T::dec(e, s)
    }

    proof fn lemma_dec_bounds(e: Endianness, s: Seq<u8>) {
        T::lemma_dec_bounds(e, s);
    }

    fn decode_from(config: &Config, reader: &mut ByteReader) -> (r: Result<Self, Error>) {
        match T::decode_from(config, reader) {
            Ok(v) => Ok(Box::new(v)),
            Err(err) => Err(err),
        }
    }
}

impl<T0: Decode> Decode for (T0,) {
    type Model = (T0::Model,);

    open spec fn model(self) -> (T0::Model,) {
        (self.0.model(),)
    }

    /// Components decode in declared order, each picking up where the
    /// previous one stopped.
    open spec fn dec(e: Endianness, s: Seq<u8>) -> Result<((T0::Model,), int), Error> {
        match T0::dec(e, s) {
            Ok((m0, n0)) => Ok(((m0,), n0)),
            Err(err) => Err(err),
        }
    }

    proof fn lemma_dec_bounds(e: Endianness, s: Seq<u8>) {
        T0::lemma_dec_bounds(e, s);
    }

    fn decode_from(config: &Config, reader: &mut ByteReader) -> (r: Result<Self, Error>) {
        let ghost e = config.endianness;
        let ghost s0 = old(reader).remaining();
        let x0: T0 = match T0::decode_from(config, reader) {
            Ok(x) => x,
            Err(err) => {
                return Err(err);
            },
        };
        proof {
            if let Ok((m0, n0)) = T0::dec(e, s0) {
                T0::lemma_dec_bounds(e, s0);
                assert(reader.remaining() =~= s0.skip(n0));
            } else {
                assert(false);
            }
        }
        Ok((x0,))
    }
}

impl<T0: Decode, T1: Decode> Decode for (T0, T1) {
    type Model = (T0::Model, T1::Model);

    open spec fn model(self) -> (T0::Model, T1::Model) {
        (self.0.model(), self.1.model())
    }

    open spec fn dec(e: Endianness, s: Seq<u8>) -> Result<((T0::Model, T1::Model), int), Error> {
        match T0::dec(e, s) {
            Ok((m0, n0)) => {
            match T1::dec(e, s.skip(n0)) {
                Ok((m1, n1)) => Ok(((m0, m1), n0 + n1)),
                Err(err) => Err(err),
            }
            },
            Err(err) => Err(err),
        }
    }

    proof fn lemma_dec_bounds(e: Endianness, s: Seq<u8>) {
        T0::lemma_dec_bounds(e, s);
        if let Ok((m0, n0)) = T0::dec(e, s) {
            T1::lemma_dec_bounds(e, s.skip(n0));
        }
    }

    fn decode_from(config: &Config, reader: &mut ByteReader) -> (r: Result<Self, Error>) {
        let ghost e = config.endianness;
        let ghost s0 = old(reader).remaining();
        let x0: T0 = match T0::decode_from(config, reader) {
            Ok(x) => x,
            Err(err) => {
                return Err(err);
            },
        };
        proof {
            if let Ok((m0, n0)) = T0::dec(e, s0) {
                T0::lemma_dec_bounds(e, s0);
                assert(reader.remaining() =~= s0.skip(n0));
            } else {
                assert(false);
            }
        }
        let x1: T1 = match T1::decode_from(config, reader) {
            Ok(x) => x,
            Err(err) => {
                return Err(err);
            },
        };
        proof {
            if let Ok((m0, n0)) = T0::dec(e, s0) {
                if let Ok((m1, n1)) = T1::dec(e, s0.skip(n0)) {
                    T1::lemma_dec_bounds(e, s0.skip(n0));
                    assert(reader.remaining() =~= s0.skip(n0).skip(n1));
                    assert(s0.skip(n0).skip(n1) =~= s0.skip(n0 + n1));
                } else {
                    assert(false);
                }
            } else {
                assert(false);
            }
        }
        Ok((x0, x1))
    }
}

impl<T0: Decode, T1: Decode, T2: Decode> Decode for (T0, T1, T2) {
    type Model = (T0::Model, T1::Model, T2::Model);

    open spec fn model(self) -> (T0::Model, T1::Model, T2::Model) {
        (self.0.model(), self.1.model(), self.2.model())
    }

    open spec fn dec(e: Endianness, s: Seq<u8>) -> Result<((T0::Model, T1::Model, T2::Model), int), Error> {
        match T0::dec(e, s) {
            Ok((m0, n0)) => {
            match T1::dec(e, s.skip(n0)) {
                Ok((m1, n1)) => {
                match T2::dec(e, s.skip(n0 + n1)) {
                    Ok((m2, n2)) => Ok(((m0, m1, m2), n0 + n1 + n2)),
                    Err(err) => Err(err),
                }
                },
                Err(err) => Err(err),
            }
            },
            Err(err) => Err(err),
        }
    }

    proof fn lemma_dec_bounds(e: Endianness, s: Seq<u8>) {
        T0::lemma_dec_bounds(e, s);
        if let Ok((m0, n0)) = T0::dec(e, s) {
            T1::lemma_dec_bounds(e, s.skip(n0));
            if let Ok((m1, n1)) = T1::dec(e, s.skip(n0)) {
                T2::lemma_dec_bounds(e, s.skip(n0 + n1));
            }
        }
    }

    fn decode_from(config: &Config, reader: &mut ByteReader) -> (r: Result<Self, Error>) {
        let ghost e = config.endianness;
        let ghost s0 = old(reader).remaining();
        let x0: T0 = match T0::decode_from(config, reader) {
            Ok(x) => x,
            Err(err) => {
                return Err(err);
            },
        };
        proof {
            if let Ok((m0, n0)) = T0::dec(e, s0) {
                T0::lemma_dec_bounds(e, s0);
                assert(reader.remaining() =~= s0.skip(n0));
            } else {
                assert(false);
            }
        }
        let x1: T1 = match T1::decode_from(config, reader) {
            Ok(x) => x,
            Err(err) => {
                return Err(err);
            },
        };
        proof {
            if let Ok((m0, n0)) = T0::dec(e, s0) {
                if let Ok((m1, n1)) = T1::dec(e, s0.skip(n0)) {
                    T1::lemma_dec_bounds(e, s0.skip(n0));
                    assert(reader.remaining() =~= s0.skip(n0).skip(n1));
                    assert(s0.skip(n0).skip(n1) =~= s0.skip(n0 + n1));
                } else {
                    assert(false);
                }
            } else {
                assert(false);
            }
        }
        let x2: T2 = match T2::decode_from(config, reader) {
            Ok(x) => x,
            Err(err) => {
                return Err(err);
            },
        };
        proof {
            if let Ok((m0, n0)) = T0::dec(e, s0) {
                if let Ok((m1, n1)) = T1::dec(e, s0.skip(n0)) {
                    if let Ok((m2, n2)) = T2::dec(e, s0.skip(n0 + n1)) {
                        T2::lemma_dec_bounds(e, s0.skip(n0 + n1));
                        assert(reader.remaining() =~= s0.skip(n0 + n1).skip(n2));
                        assert(s0.skip(n0 + n1).skip(n2) =~= s0.skip(n0 + n1 + n2));
                    } else {
                        assert(false);
                    }
                } else {
                    assert(false);
                }
            } else {
                assert(false);
            }
        }
        Ok((x0, x1, x2))
    }
}

impl<T0: Decode, T1: Decode, T2: Decode, T3: Decode> Decode for (T0, T1, T2, T3) {
    type Model = (T0::Model, T1::Model, T2::Model, T3::Model);

    open spec fn model(self) -> (T0::Model, T1::Model, T2::Model, T3::Model) {
        (self.0.model(), self.1.model(), self.2.model(), self.3.model())
    }

    open spec fn dec(e: Endianness, s: Seq<u8>) -> Result<((T0::Model, T1::Model, T2::Model, T3::Model), int), Error> {
        match T0::dec(e, s) {
            Ok((m0, n0)) => {
            match T1::dec(e, s.skip(n0)) {
                Ok((m1, n1)) => {
                match T2::dec(e, s.skip(n0 + n1)) {
                    Ok((m2, n2)) => {
                    match T3::dec(e, s.skip(n0 + n1 + n2)) {
                        Ok((m3, n3)) => Ok(((m0, m1, m2, m3), n0 + n1 + n2 + n3)),
                        Err(err) => Err(err),
                    }
                    },
                    Err(err) => Err(err),
                }
                },
                Err(err) => Err(err),
            }
            },
            Err(err) => Err(err),
        }
    }

    proof fn lemma_dec_bounds(e: Endianness, s: Seq<u8>) {
        T0::lemma_dec_bounds(e, s);
        if let Ok((m0, n0)) = T0::dec(e, s) {
            T1::lemma_dec_bounds(e, s.skip(n0));
            if let Ok((m1, n1)) = T1::dec(e, s.skip(n0)) {
                T2::lemma_dec_bounds(e, s.skip(n0 + n1));
                if let Ok((m2, n2)) = T2::dec(e, s.skip(n0 + n1)) {
                    T3::lemma_dec_bounds(e, s.skip(n0 + n1 + n2));
                }
            }
        }
    }

    fn decode_from(config: &Config, reader: &mut ByteReader) -> (r: Result<Self, Error>) {
        let ghost e = config.endianness;
        let ghost s0 = old(reader).remaining();
        let x0: T0 = match T0::decode_from(config, reader) {
            Ok(x) => x,
            Err(err) => {
                return Err(err);
            },
        };
        proof {
            if let Ok((m0, n0)) = T0::dec(e, s0) {
                T0::lemma_dec_bounds(e, s0);
                assert(reader.remaining() =~= s0.skip(n0));
            } else {
                assert(false);
            }
        }
        let x1: T1 = match T1::decode_from(config, reader) {
            Ok(x) => x,
            Err(err) => {
                return Err(err);
            },
        };
        proof {
            if let Ok((m0, n0)) = T0::dec(e, s0) {
                if let Ok((m1, n1)) = T1::dec(e, s0.skip(n0)) {
                    T1::lemma_dec_bounds(e, s0.skip(n0));
                    assert(reader.remaining() =~= s0.skip(n0).skip(n1));
                    assert(s0.skip(n0).skip(n1) =~= s0.skip(n0 + n1));
                } else {
                    assert(false);
                }
            } else {
                assert(false);
            }
        }
        let x2: T2 = match T2::decode_from(config, reader) {
            Ok(x) => x,
            Err(err) => {
                return Err(err);
            },
        };
        proof {
            if let Ok((m0, n0)) = T0::dec(e, s0) {
                if let Ok((m1, n1)) = T1::dec(e, s0.skip(n0)) {
                    if let Ok((m2, n2)) = T2::dec(e, s0.skip(n0 + n1)) {
                        T2::lemma_dec_bounds(e, s0.skip(n0 + n1));
                        assert(reader.remaining() =~= s0.skip(n0 + n1).skip(n2));
                        assert(s0.skip(n0 + n1).skip(n2) =~= s0.skip(n0 + n1 + n2));
                    } else {
                        assert(false);
                    }
                } else {
                    assert(false);
                }
            } else {
                assert(false);
            }
        }
        let x3: T3 = match T3::decode_from(config, reader) {
            Ok(x) => x,
            Err(err) => {
                return Err(err);
            },
        };
        proof {
            if let Ok((m0, n0)) = T0::dec(e, s0) {
                if let Ok((m1, n1)) = T1::dec(e, s0.skip(n0)) {
                    if let Ok((m2, n2)) = T2::dec(e, s0.skip(n0 + n1)) {
                        if let Ok((m3, n3)) = T3::dec(e, s0.skip(n0 + n1 + n2)) {
                            T3::lemma_dec_bounds(e, s0.skip(n0 + n1 + n2));
                            assert(reader.remaining() =~= s0.skip(n0 + n1 + n2).skip(n3));
                            assert(s0.skip(n0 + n1 + n2).skip(n3) =~= s0.skip(n0 + n1 + n2 + n3));
                        } else {
                            assert(false);
                        }
                    } else {
                        assert(false);
                    }
                } else {
                    assert(false);
                }
            } else {
                assert(false);
            }
        }
        Ok((x0, x1, x2, x3))
    }
}

impl<T: Decode> Decode for std::rc::Rc<T> {
    type Model = T::Model;

    open spec fn model(self) -> T::Model {
        (*self).model()
    }

    /// A shared ownership wrapper decodes as the wrapped value.
    open spec fn dec(e: Endianness, s: Seq<u8>) -> Result<(T::Model, int), Error> {
        T::dec(e, s)
    }

    proof fn lemma_dec_bounds(e: Endianness, s: Seq<u8>) {
        T::lemma_dec_bounds(e, s);
    }

    fn decode_from(config: &Config, reader: &mut ByteReader) -> (r: Result<Self, Error>) {
        match T::decode_from(config, reader) {
            Ok(v) => Ok(std::rc::Rc::new(v)),
            Err(err) => Err(err),
        }
    }
}

impl<T: Decode> Decode for std::sync::Arc<T> {
    type Model = T::Model;

    open spec fn model(self) -> T::Model {
        (*self).model()
    }

    /// A thread-safe shared ownership wrapper decodes as the wrapped
    /// value.
    open spec fn dec(e: Endianness, s: Seq<u8>) -> Result<(T::Model, int), Error> {
        T::dec(e, s)
    }

    proof fn lemma_dec_bounds(e: Endianness, s: Seq<u8>) {
        T::lemma_dec_bounds(e, s);
    }

    fn decode_from(config: &Config, reader: &mut ByteReader) -> (r: Result<Self, Error>) {
        match T::decode_from(config, reader) {
            Ok(v) => Ok(std::sync::Arc::new(v)),
            Err(err) => Err(err),
        }
    }
}

impl<T: ?Sized> Decode for core::marker::PhantomData<T> {
    type Model = ();

    open spec fn model(self) -> () {
        ()
    }

    /// A marker consumes no bytes and cannot fail.
    open spec fn dec(e: Endianness, s: Seq<u8>) -> Result<((), int), Error> {
        Ok(((), 0))
    }

    proof fn lemma_dec_bounds(e: Endianness, s: Seq<u8>) {
    }

    fn decode_from(config: &Config, reader: &mut ByteReader) -> (r: Result<Self, Error>) {
        Ok(core::marker::PhantomData)
    }
}

impl Decode for () {
    type Model = ();

    open spec fn model(self) -> () {
        self
    }

    /// A zero-sized value consumes no bytes and cannot fail.
    open spec fn dec(e: Endianness, s: Seq<u8>) -> Result<((), int), Error> {
        Ok(((), 0))
    }

    proof fn lemma_dec_bounds(e: Endianness, s: Seq<u8>) {
    }

    fn decode_from(config: &Config, reader: &mut ByteReader) -> (r: Result<Self, Error>) {
        Ok(())
    }
}

} // verus!
