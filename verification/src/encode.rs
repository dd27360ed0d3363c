//! The write-side capability: per-type wire layout, size and writer.

use std::collections::VecDeque;

use vstd::prelude::*;
use vstd::array::array_index_get;
use vstd::slice::slice_index_get;
use vstd::string::StrSliceExecFns;
use vstd::string::StringSliceAdditionalSpecFns;
use vstd::utf8::encode_utf8;

use crate::config::Config;
use crate::config::Endianness;
use crate::wire::lemma_pow256_values;
use crate::wire::lemma_uint_wire_len;
use crate::wire::twos_complement;
use crate::wire::u_of_i128;
use crate::wire::u_of_i16;
use crate::wire::u_of_i32;
use crate::wire::u_of_i64;
use crate::wire::u_of_i8;
use crate::wire::u_of_isize;
use crate::wire::uint_wire;
use crate::wire::write_uint;

verus! {

/// Trait for encoding values.
///
/// `wire` is the value's exact byte representation under a byte order; it
/// is the wire format's definition for the implementing type. `size`
/// returns its length without writing anything, and `encode_to` appends
/// exactly those bytes to the writer. Writing into a growing in-memory
/// buffer cannot fail, so `encode_to` returns the byte count directly.
pub trait Encode {
    /// The encoded bytes of `self` under byte order `e`.
    spec fn wire(&self, e: Endianness) -> Seq<u8>;

    /// Returns the size of the encoded byte array.
    fn size(&self) -> (n: usize)
        requires
            self.wire(Endianness::LittleEndian).len() <= usize::MAX,
            self.wire(Endianness::BigEndian).len() <= usize::MAX,
        ensures
            n == self.wire(Endianness::LittleEndian).len(),
            n == self.wire(Endianness::BigEndian).len(),
    ;

    /// Appends the encoded bytes to `writer` and returns the number of
    /// bytes written.
    fn encode_to(&self, config: &Config, writer: &mut Vec<u8>) -> (n: usize)
        requires
            old(writer)@.len() + self.wire(config.endianness).len() <= usize::MAX,
        ensures
            final(writer)@ == old(writer)@ + self.wire(config.endianness),
            n == self.wire(config.endianness).len(),
    ;
}

impl Encode for u8 {
    open spec fn wire(&self, e: Endianness) -> Seq<u8> {
        uint_wire(*self as nat, 1, e)
    }

    fn size(&self) -> (n: usize)
    {
        proof {
            lemma_uint_wire_len(*self as nat, 1, Endianness::LittleEndian);
            lemma_uint_wire_len(*self as nat, 1, Endianness::BigEndian);
        }
        1
    }

    fn encode_to(&self, config: &Config, writer: &mut Vec<u8>) -> (n: usize)
    {
        proof {
            lemma_pow256_values();
            lemma_uint_wire_len(*self as nat, 1, config.endianness);
        }
        write_uint(writer, *self as u128, 1, config.endianness);
        1
    }
}

impl Encode for u16 {
    open spec fn wire(&self, e: Endianness) -> Seq<u8> {
        uint_wire(*self as nat, 2, e)
    }

    fn size(&self) -> (n: usize)
    {
        proof {
            lemma_uint_wire_len(*self as nat, 2, Endianness::LittleEndian);
            lemma_uint_wire_len(*self as nat, 2, Endianness::BigEndian);
        }
        2
    }

    fn encode_to(&self, config: &Config, writer: &mut Vec<u8>) -> (n: usize)
    {
        proof {
            lemma_pow256_values();
            lemma_uint_wire_len(*self as nat, 2, config.endianness);
        }
        write_uint(writer, *self as u128, 2, config.endianness);
        2
    }
}

impl Encode for u32 {
    open spec fn wire(&self, e: Endianness) -> Seq<u8> {
        uint_wire(*self as nat, 4, e)
    }

    fn size(&self) -> (n: usize)
    {
        proof {
            lemma_uint_wire_len(*self as nat, 4, Endianness::LittleEndian);
            lemma_uint_wire_len(*self as nat, 4, Endianness::BigEndian);
        }
        4
    }

    fn encode_to(&self, config: &Config, writer: &mut Vec<u8>) -> (n: usize)
    {
        proof {
            lemma_pow256_values();
            lemma_uint_wire_len(*self as nat, 4, config.endianness);
        }
        write_uint(writer, *self as u128, 4, config.endianness);
        4
    }
}

impl Encode for u64 {
    open spec fn wire(&self, e: Endianness) -> Seq<u8> {
        uint_wire(*self as nat, 8, e)
    }

    fn size(&self) -> (n: usize)
    {
        proof {
            lemma_uint_wire_len(*self as nat, 8, Endianness::LittleEndian);
            lemma_uint_wire_len(*self as nat, 8, Endianness::BigEndian);
        }
        8
    }

    fn encode_to(&self, config: &Config, writer: &mut Vec<u8>) -> (n: usize)
    {
        proof {
            lemma_pow256_values();
            lemma_uint_wire_len(*self as nat, 8, config.endianness);
        }
        write_uint(writer, *self as u128, 8, config.endianness);
        8
    }
}

impl Encode for u128 {
    open spec fn wire(&self, e: Endianness) -> Seq<u8> {
        uint_wire(*self as nat, 16, e)
    }

    fn size(&self) -> (n: usize)
    {
        proof {
            lemma_uint_wire_len(*self as nat, 16, Endianness::LittleEndian);
            lemma_uint_wire_len(*self as nat, 16, Endianness::BigEndian);
        }
        16
    }

    fn encode_to(&self, config: &Config, writer: &mut Vec<u8>) -> (n: usize)
    {
        proof {
            lemma_pow256_values();
            lemma_uint_wire_len(*self as nat, 16, config.endianness);
        }
        write_uint(writer, *self, 16, config.endianness);
        16
    }
}

impl Encode for usize {
    /// The native index type travels as a fixed 8-byte field, so the wire
    /// format does not depend on the platform's pointer width.
    open spec fn wire(&self, e: Endianness) -> Seq<u8> {
        uint_wire(*self as nat, 8, e)
    }

    fn size(&self) -> (n: usize)
    {
        proof {
            lemma_uint_wire_len(*self as nat, 8, Endianness::LittleEndian);
            lemma_uint_wire_len(*self as nat, 8, Endianness::BigEndian);
        }
        8
    }

    fn encode_to(&self, config: &Config, writer: &mut Vec<u8>) -> (n: usize)
    {
        proof {
            lemma_pow256_values();
            lemma_uint_wire_len(*self as nat, 8, config.endianness);
        }
        write_uint(writer, *self as u128, 8, config.endianness);
        8
    }
}

impl Encode for i8 {
    open spec fn wire(&self, e: Endianness) -> Seq<u8> {
        uint_wire(twos_complement(*self as int, 1), 1, e)
    }

    fn size(&self) -> (n: usize)
    {
        proof {
            lemma_uint_wire_len(twos_complement(*self as int, 1), 1, Endianness::LittleEndian);
            lemma_uint_wire_len(twos_complement(*self as int, 1), 1, Endianness::BigEndian);
        }
        1
    }

    fn encode_to(&self, config: &Config, writer: &mut Vec<u8>) -> (n: usize)
    {
        proof {
            lemma_pow256_values();
            lemma_uint_wire_len(twos_complement(*self as int, 1), 1, config.endianness);
        }
        let u: u8 = u_of_i8(*self);
        write_uint(writer, u as u128, 1, config.endianness);
        1
    }
}

impl Encode for i16 {
    open spec fn wire(&self, e: Endianness) -> Seq<u8> {
        uint_wire(twos_complement(*self as int, 2), 2, e)
    }

    fn size(&self) -> (n: usize)
    {
        proof {
            lemma_uint_wire_len(twos_complement(*self as int, 2), 2, Endianness::LittleEndian);
            lemma_uint_wire_len(twos_complement(*self as int, 2), 2, Endianness::BigEndian);
        }
        2
    }

    fn encode_to(&self, config: &Config, writer: &mut Vec<u8>) -> (n: usize)
    {
        proof {
            lemma_pow256_values();
            lemma_uint_wire_len(twos_complement(*self as int, 2), 2, config.endianness);
        }
        let u: u16 = u_of_i16(*self);
        write_uint(writer, u as u128, 2, config.endianness);
        2
    }
}

impl Encode for i32 {
    open spec fn wire(&self, e: Endianness) -> Seq<u8> {
        uint_wire(twos_complement(*self as int, 4), 4, e)
    }

    fn size(&self) -> (n: usize)
    {
        proof {
            lemma_uint_wire_len(twos_complement(*self as int, 4), 4, Endianness::LittleEndian);
            lemma_uint_wire_len(twos_complement(*self as int, 4), 4, Endianness::BigEndian);
        }
        4
    }

    fn encode_to(&self, config: &Config, writer: &mut Vec<u8>) -> (n: usize)
    {
        proof {
            lemma_pow256_values();
            lemma_uint_wire_len(twos_complement(*self as int, 4), 4, config.endianness);
        }
        let u: u32 = u_of_i32(*self);
        write_uint(writer, u as u128, 4, config.endianness);
        4
    }
}

impl Encode for i64 {
    open spec fn wire(&self, e: Endianness) -> Seq<u8> {
        uint_wire(twos_complement(*self as int, 8), 8, e)
    }

    fn size(&self) -> (n: usize)
    {
        proof {
            lemma_uint_wire_len(twos_complement(*self as int, 8), 8, Endianness::LittleEndian);
            lemma_uint_wire_len(twos_complement(*self as int, 8), 8, Endianness::BigEndian);
        }
        8
    }

    fn encode_to(&self, config: &Config, writer: &mut Vec<u8>) -> (n: usize)
    {
        proof {
            lemma_pow256_values();
            lemma_uint_wire_len(twos_complement(*self as int, 8), 8, config.endianness);
        }
        let u: u64 = u_of_i64(*self);
        write_uint(writer, u as u128, 8, config.endianness);
        8
    }
}

impl Encode for i128 {
    open spec fn wire(&self, e: Endianness) -> Seq<u8> {
        uint_wire(twos_complement(*self as int, 16), 16, e)
    }

    fn size(&self) -> (n: usize)
    {
        proof {
            lemma_uint_wire_len(twos_complement(*self as int, 16), 16, Endianness::LittleEndian);
            lemma_uint_wire_len(twos_complement(*self as int, 16), 16, Endianness::BigEndian);
        }
        16
    }

    fn encode_to(&self, config: &Config, writer: &mut Vec<u8>) -> (n: usize)
    {
        proof {
            lemma_pow256_values();
            lemma_uint_wire_len(twos_complement(*self as int, 16), 16, config.endianness);
        }
        let u: u128 = u_of_i128(*self);
        write_uint(writer, u, 16, config.endianness);
        16
    }
}

impl Encode for isize {
    /// The native signed index type travels as a fixed 8-byte field, like
    /// `usize`.
    open spec fn wire(&self, e: Endianness) -> Seq<u8> {
        uint_wire(twos_complement(*self as int, 8), 8, e)
    }

    fn size(&self) -> (n: usize)
    {
        proof {
            lemma_uint_wire_len(twos_complement(*self as int, 8), 8, Endianness::LittleEndian);
            lemma_uint_wire_len(twos_complement(*self as int, 8), 8, Endianness::BigEndian);
        }
        8
    }

    fn encode_to(&self, config: &Config, writer: &mut Vec<u8>) -> (n: usize)
    {
        proof {
            lemma_pow256_values();
            lemma_uint_wire_len(twos_complement(*self as int, 8), 8, config.endianness);
        }
        let u: u64 = u_of_isize(*self);
        write_uint(writer, u as u128, 8, config.endianness);
        8
    }
}

impl Encode for bool {
    /// A single byte: 0 for `false`, 1 for `true`.
    open spec fn wire(&self, e: Endianness) -> Seq<u8> {
        if *self {
            seq![1u8]
        } else {
            seq![0u8]
        }
    }

    fn size(&self) -> (n: usize)
    {
        1
    }

    fn encode_to(&self, config: &Config, writer: &mut Vec<u8>) -> (n: usize)
    {
        let b: u8 = if *self {
            1
        } else {
            0
        };
        writer.push(b);
        proof {
            assert(writer@ =~= old(writer)@ + self.wire(config.endianness));
        }
        1
    }
}

impl Encode for char {
    /// A 32-bit code point, written through the `u32` layout.
    open spec fn wire(&self, e: Endianness) -> Seq<u8> {
        uint_wire((*self as u32) as nat, 4, e)
    }

    fn size(&self) -> (n: usize)
    {
        proof {
            lemma_uint_wire_len((*self as u32) as nat, 4, Endianness::LittleEndian);
            lemma_uint_wire_len((*self as u32) as nat, 4, Endianness::BigEndian);
        }
        4
    }

    fn encode_to(&self, config: &Config, writer: &mut Vec<u8>) -> (n: usize)
    {
        proof {
            lemma_pow256_values();
            lemma_uint_wire_len((*self as u32) as nat, 4, config.endianness);
        }
        let code: u32 = *self as u32;
        write_uint(writer, code as u128, 4, config.endianness);
        4
    }
}

/// The concatenated encodings of a sequence of values, in order.
pub open spec fn seq_wire<T: Encode>(s: Seq<T>, e: Endianness) -> Seq<u8>
    decreases s.len(),
{
    if s.len() == 0 {
        Seq::empty()
    } else {
        s[0].wire(e) + seq_wire(s.drop_first(), e)
    }
}

/// Concatenated encodings split where the sequence splits.
pub proof fn lemma_seq_wire_concat<T: Encode>(a: Seq<T>, b: Seq<T>, e: Endianness)
    ensures
        seq_wire(a + b, e) == seq_wire(a, e) + seq_wire(b, e),
    decreases a.len(),
{
    if a.len() == 0 {
        assert(a + b =~= b);
        assert(seq_wire(a, e) + seq_wire(b, e) =~= seq_wire(b, e));
    } else {
        assert((a + b)[0] == a[0]);
        assert((a + b).drop_first() =~= a.drop_first() + b);
        lemma_seq_wire_concat(a.drop_first(), b, e);
        assert(seq_wire(a + b, e) =~= seq_wire(a, e) + seq_wire(b, e));
    }
}

/// Appending one value to a sequence appends its encoding to the
/// concatenated encodings.
pub proof fn lemma_seq_wire_push<T: Encode>(s: Seq<T>, x: T, e: Endianness)
    ensures
        seq_wire(s.push(x), e) == seq_wire(s, e) + x.wire(e),
{
    assert(s.push(x) =~= s + seq![x]);
    lemma_seq_wire_concat(s, seq![x], e);
    assert(seq![x].drop_first() =~= Seq::<T>::empty());
    assert(seq_wire(seq![x], e) == x.wire(e) + seq_wire(Seq::<T>::empty(), e));
    assert(x.wire(e) + Seq::<u8>::empty() =~= x.wire(e));
}

impl<T: Encode> Encode for Vec<T> {
    /// An 8-byte length prefix, then each element's encoding in order.
    open spec fn wire(&self, e: Endianness) -> Seq<u8> {
        uint_wire(self@.len(), 8, e) + seq_wire(self@, e)
    }

    fn size(&self) -> (n: usize)
    {
        proof {
            lemma_uint_wire_len(self@.len(), 8, Endianness::LittleEndian);
            lemma_uint_wire_len(self@.len(), 8, Endianness::BigEndian);
        }
        let mut total: usize = 8;
        let mut i: usize = 0;
        while i < self.len()
            invariant
                i <= self@.len(),
                total == 8 + seq_wire(self@.take(i as int), Endianness::LittleEndian).len(),
                total == 8 + seq_wire(self@.take(i as int), Endianness::BigEndian).len(),
                self.wire(Endianness::LittleEndian).len() <= usize::MAX,
                self.wire(Endianness::BigEndian).len() <= usize::MAX,
                uint_wire(self@.len(), 8, Endianness::LittleEndian).len() == 8,
                uint_wire(self@.len(), 8, Endianness::BigEndian).len() == 8,
            decreases self@.len() - i,
        {
            proof {
                assert(self@ =~= self@.take(i + 1) + self@.skip(i + 1));
                assert(self@.take(i + 1) =~= self@.take(i as int).push(self@[i as int]));
                lemma_seq_wire_concat(self@.take(i + 1), self@.skip(i + 1), Endianness::LittleEndian);
                lemma_seq_wire_concat(self@.take(i + 1), self@.skip(i + 1), Endianness::BigEndian);
                lemma_seq_wire_push(self@.take(i as int), self@[i as int], Endianness::LittleEndian);
                lemma_seq_wire_push(self@.take(i as int), self@[i as int], Endianness::BigEndian);
            }
            let m: usize = self[i].size();
            total = total + m;
            i = i + 1;
        }
        proof {
            assert(self@.take(self@.len() as int) =~= self@);
        }
        total
    }

    fn encode_to(&self, config: &Config, writer: &mut Vec<u8>) -> (n: usize)
    {
        let ghost e = config.endianness;
        proof {
            lemma_pow256_values();
            lemma_uint_wire_len(self@.len(), 8, e);
        }
        write_uint(writer, self.len() as u128, 8, config.endianness);
        let ghost base = old(writer)@ + uint_wire(self@.len(), 8, e);
        let mut total: usize = 8;
        let mut i: usize = 0;
        while i < self.len()
            invariant
                i <= self@.len(),
                e == config.endianness,
                total == 8 + seq_wire(self@.take(i as int), e).len(),
                writer@ == base + seq_wire(self@.take(i as int), e),
                base == old(writer)@ + uint_wire(self@.len(), 8, e),
                old(writer)@.len() + self.wire(e).len() <= usize::MAX,
                uint_wire(self@.len(), 8, e).len() == 8,
            decreases self@.len() - i,
        {
            proof {
                assert(self@ =~= self@.take(i + 1) + self@.skip(i + 1));
                assert(self@.take(i + 1) =~= self@.take(i as int).push(self@[i as int]));
                lemma_seq_wire_concat(self@.take(i + 1), self@.skip(i + 1), e);
                lemma_seq_wire_push(self@.take(i as int), self@[i as int], e);
            }
            let m: usize = self[i].encode_to(config, writer);
            proof {
                assert(writer@ =~= base + seq_wire(self@.take(i + 1), e));
            }
            total = total + m;
            i = i + 1;
        }
        proof {
            assert(self@.take(self@.len() as int) =~= self@);
            assert(writer@ =~= old(writer)@ + self.wire(e));
        }
        total
    }
}

impl<T: Encode, const N: usize> Encode for [T; N] {
    /// Elements concatenated in order; the length is static, so there is
    /// no prefix.
    open spec fn wire(&self, e: Endianness) -> Seq<u8> {
        seq_wire(self@, e)
    }

    fn size(&self) -> (n: usize)
    {
        let mut total: usize = 0;
        let mut i: usize = 0;
        while i < N
            invariant
                i <= N,
                total == seq_wire(self@.take(i as int), Endianness::LittleEndian).len(),
                total == seq_wire(self@.take(i as int), Endianness::BigEndian).len(),
                self.wire(Endianness::LittleEndian).len() <= usize::MAX,
                self.wire(Endianness::BigEndian).len() <= usize::MAX,
            decreases N - i,
        {
            proof {
                assert(self@ =~= self@.take(i + 1) + self@.skip(i + 1));
                assert(self@.take(i + 1) =~= self@.take(i as int).push(self@[i as int]));
                lemma_seq_wire_concat(self@.take(i + 1), self@.skip(i + 1), Endianness::LittleEndian);
                lemma_seq_wire_concat(self@.take(i + 1), self@.skip(i + 1), Endianness::BigEndian);
                lemma_seq_wire_push(self@.take(i as int), self@[i as int], Endianness::LittleEndian);
                lemma_seq_wire_push(self@.take(i as int), self@[i as int], Endianness::BigEndian);
            }
            let m: usize = array_index_get(self, i).size();
            total = total + m;
            i = i + 1;
        }
        proof {
            assert(self@.take(N as int) =~= self@);
        }
        total
    }

    fn encode_to(&self, config: &Config, writer: &mut Vec<u8>) -> (n: usize)
    {
        let ghost e = config.endianness;
        let mut total: usize = 0;
        let mut i: usize = 0;
        while i < N
            invariant
                i <= N,
                e == config.endianness,
                total == seq_wire(self@.take(i as int), e).len(),
                writer@ == old(writer)@ + seq_wire(self@.take(i as int), e),
                old(writer)@.len() + self.wire(e).len() <= usize::MAX,
            decreases N - i,
        {
            proof {
                assert(self@ =~= self@.take(i + 1) + self@.skip(i + 1));
                assert(self@.take(i + 1) =~= self@.take(i as int).push(self@[i as int]));
                lemma_seq_wire_concat(self@.take(i + 1), self@.skip(i + 1), e);
                lemma_seq_wire_push(self@.take(i as int), self@[i as int], e);
            }
            let m: usize = array_index_get(self, i).encode_to(config, writer);
            proof {
                assert(writer@ =~= old(writer)@ + seq_wire(self@.take(i + 1), e));
            }
            total = total + m;
            i = i + 1;
        }
        proof {
            assert(self@.take(N as int) =~= self@);
        }
        total
    }
}

impl<T: Encode> Encode for [T] {
    /// A slice encodes exactly as a vector of its elements: an 8-byte
    /// length prefix, then each element's encoding in order.
    open spec fn wire(&self, e: Endianness) -> Seq<u8> {
        uint_wire(self@.len(), 8, e) + seq_wire(self@, e)
    }

    fn size(&self) -> (n: usize)
    {
        proof {
            lemma_uint_wire_len(self@.len(), 8, Endianness::LittleEndian);
            lemma_uint_wire_len(self@.len(), 8, Endianness::BigEndian);
        }
        let mut total: usize = 8;
        let mut i: usize = 0;
        while i < self.len()
            invariant
                i <= self@.len(),
                total == 8 + seq_wire(self@.take(i as int), Endianness::LittleEndian).len(),
                total == 8 + seq_wire(self@.take(i as int), Endianness::BigEndian).len(),
                self.wire(Endianness::LittleEndian).len() <= usize::MAX,
                self.wire(Endianness::BigEndian).len() <= usize::MAX,
                uint_wire(self@.len(), 8, Endianness::LittleEndian).len() == 8,
                uint_wire(self@.len(), 8, Endianness::BigEndian).len() == 8,
            decreases self@.len() - i,
        {
            proof {
                assert(self@ =~= self@.take(i + 1) + self@.skip(i + 1));
                assert(self@.take(i + 1) =~= self@.take(i as int).push(self@[i as int]));
                lemma_seq_wire_concat(self@.take(i + 1), self@.skip(i + 1), Endianness::LittleEndian);
                lemma_seq_wire_concat(self@.take(i + 1), self@.skip(i + 1), Endianness::BigEndian);
                lemma_seq_wire_push(self@.take(i as int), self@[i as int], Endianness::LittleEndian);
                lemma_seq_wire_push(self@.take(i as int), self@[i as int], Endianness::BigEndian);
            }
            let m: usize = slice_index_get(self, i).size();
            total = total + m;
            i = i + 1;
        }
        proof {
            assert(self@.take(self@.len() as int) =~= self@);
        }
        total
    }

    fn encode_to(&self, config: &Config, writer: &mut Vec<u8>) -> (n: usize)
    {
        let ghost e = config.endianness;
        proof {
            lemma_pow256_values();
            lemma_uint_wire_len(self@.len(), 8, e);
        }
        write_uint(writer, self.len() as u128, 8, config.endianness);
        let ghost base = old(writer)@ + uint_wire(self@.len(), 8, e);
        let mut total: usize = 8;
        let mut i: usize = 0;
        while i < self.len()
            invariant
                i <= self@.len(),
                e == config.endianness,
                total == 8 + seq_wire(self@.take(i as int), e).len(),
                writer@ == base + seq_wire(self@.take(i as int), e),
                base == old(writer)@ + uint_wire(self@.len(), 8, e),
                old(writer)@.len() + self.wire(e).len() <= usize::MAX,
                uint_wire(self@.len(), 8, e).len() == 8,
            decreases self@.len() - i,
        {
            proof {
                assert(self@ =~= self@.take(i + 1) + self@.skip(i + 1));
                assert(self@.take(i + 1) =~= self@.take(i as int).push(self@[i as int]));
                lemma_seq_wire_concat(self@.take(i + 1), self@.skip(i + 1), e);
                lemma_seq_wire_push(self@.take(i as int), self@[i as int], e);
            }
            let m: usize = slice_index_get(self, i).encode_to(config, writer);
            proof {
                assert(writer@ =~= base + seq_wire(self@.take(i + 1), e));
            }
            total = total + m;
            i = i + 1;
        }
        proof {
            assert(self@.take(self@.len() as int) =~= self@);
            assert(writer@ =~= old(writer)@ + self.wire(e));
        }
        total
    }
}

impl Encode for str {
    /// Text is encoded as a byte-sequence container: an 8-byte length
    /// prefix, then the UTF-8 bytes.
    open spec fn wire(&self, e: Endianness) -> Seq<u8> {
        uint_wire(self.spec_bytes().len(), 8, e) + self.spec_bytes()
    }

    fn size(&self) -> (n: usize)
    {
        proof {
            lemma_uint_wire_len(self.spec_bytes().len(), 8, Endianness::LittleEndian);
            lemma_uint_wire_len(self.spec_bytes().len(), 8, Endianness::BigEndian);
        }
        8 + self.len()
    }

    fn encode_to(&self, config: &Config, writer: &mut Vec<u8>) -> (n: usize)
    {
        let ghost e = config.endianness;
        proof {
            lemma_pow256_values();
            lemma_uint_wire_len(self.spec_bytes().len(), 8, e);
        }
        let mut bytes: Vec<u8> = self.as_bytes_vec();
        let blen: usize = bytes.len();
        write_uint(writer, blen as u128, 8, config.endianness);
        writer.append(&mut bytes);
        proof {
            assert(writer@ =~= old(writer)@ + self.wire(e));
        }
        8 + blen
    }
}

impl Encode for String {
    /// Text is encoded as a byte-sequence container: an 8-byte length
    /// prefix, then the UTF-8 bytes.
    open spec fn wire(&self, e: Endianness) -> Seq<u8> {
        uint_wire(encode_utf8(self@).len(), 8, e) + encode_utf8(self@)
    }

    fn size(&self) -> (n: usize)
    {
        proof {
            lemma_uint_wire_len(encode_utf8(self@).len(), 8, Endianness::LittleEndian);
            lemma_uint_wire_len(encode_utf8(self@).len(), 8, Endianness::BigEndian);
        }
        8 + self.as_str().len()
    }

    fn encode_to(&self, config: &Config, writer: &mut Vec<u8>) -> (n: usize)
    {
        let ghost e = config.endianness;
        proof {
            lemma_pow256_values();
            lemma_uint_wire_len(encode_utf8(self@).len(), 8, e);
        }
        let mut bytes: Vec<u8> = self.as_str().as_bytes_vec();
        let blen: usize = bytes.len();
        write_uint(writer, blen as u128, 8, config.endianness);
        writer.append(&mut bytes);
        proof {
            assert(writer@ =~= old(writer)@ + self.wire(e));
        }
        8 + blen
    }
}

impl<T: Encode> Encode for VecDeque<T> {
    /// A double-ended queue encodes exactly as a vector: an 8-byte length
    /// prefix, then each element's encoding from front to back.
    open spec fn wire(&self, e: Endianness) -> Seq<u8> {
        uint_wire(self@.len(), 8, e) + seq_wire(self@, e)
    }

    fn size(&self) -> (n: usize)
    {
        proof {
            lemma_uint_wire_len(self@.len(), 8, Endianness::LittleEndian);
            lemma_uint_wire_len(self@.len(), 8, Endianness::BigEndian);
        }
        let mut total: usize = 8;
        let mut i: usize = 0;
        while i < self.len()
            invariant
                i <= self@.len(),
                total == 8 + seq_wire(self@.take(i as int), Endianness::LittleEndian).len(),
                total == 8 + seq_wire(self@.take(i as int), Endianness::BigEndian).len(),
                self.wire(Endianness::LittleEndian).len() <= usize::MAX,
                self.wire(Endianness::BigEndian).len() <= usize::MAX,
                uint_wire(self@.len(), 8, Endianness::LittleEndian).len() == 8,
                uint_wire(self@.len(), 8, Endianness::BigEndian).len() == 8,
            decreases self@.len() - i,
        {
            proof {
                assert(self@ =~= self@.take(i + 1) + self@.skip(i + 1));
                assert(self@.take(i + 1) =~= self@.take(i as int).push(self@[i as int]));
                lemma_seq_wire_concat(self@.take(i + 1), self@.skip(i + 1), Endianness::LittleEndian);
                lemma_seq_wire_concat(self@.take(i + 1), self@.skip(i + 1), Endianness::BigEndian);
                lemma_seq_wire_push(self@.take(i as int), self@[i as int], Endianness::LittleEndian);
                lemma_seq_wire_push(self@.take(i as int), self@[i as int], Endianness::BigEndian);
            }
            let m: usize = self[i].size();
            total = total + m;
            i = i + 1;
        }
        proof {
            assert(self@.take(self@.len() as int) =~= self@);
        }
        total
    }

    fn encode_to(&self, config: &Config, writer: &mut Vec<u8>) -> (n: usize)
    {
        let ghost e = config.endianness;
        proof {
            lemma_pow256_values();
            lemma_uint_wire_len(self@.len(), 8, e);
        }
        write_uint(writer, self.len() as u128, 8, config.endianness);
        let ghost base = old(writer)@ + uint_wire(self@.len(), 8, e);
        let mut total: usize = 8;
        let mut i: usize = 0;
        while i < self.len()
            invariant
                i <= self@.len(),
                e == config.endianness,
                total == 8 + seq_wire(self@.take(i as int), e).len(),
                writer@ == base + seq_wire(self@.take(i as int), e),
                base == old(writer)@ + uint_wire(self@.len(), 8, e),
                old(writer)@.len() + self.wire(e).len() <= usize::MAX,
                uint_wire(self@.len(), 8, e).len() == 8,
            decreases self@.len() - i,
        {
            proof {
                assert(self@ =~= self@.take(i + 1) + self@.skip(i + 1));
                assert(self@.take(i + 1) =~= self@.take(i as int).push(self@[i as int]));
                lemma_seq_wire_concat(self@.take(i + 1), self@.skip(i + 1), e);
                lemma_seq_wire_push(self@.take(i as int), self@[i as int], e);
            }
            let m: usize = self[i].encode_to(config, writer);
            proof {
                assert(writer@ =~= base + seq_wire(self@.take(i + 1), e));
            }
            total = total + m;
            i = i + 1;
        }
        proof {
            assert(self@.take(self@.len() as int) =~= self@);
            assert(writer@ =~= old(writer)@ + self.wire(e));
        }
        total
    }
}

impl<T: Encode> Encode for Option<T> {
    /// One discriminant byte (0 = absent, 1 = present), then the inner
    /// encoding when present.
    open spec fn wire(&self, e: Endianness) -> Seq<u8> {
        match self {
            Option::None => seq![0u8],
            Option::Some(v) => seq![1u8] + v.wire(e),
        }
    }

    fn size(&self) -> (n: usize)
    {
        match self {
            Option::None => 1,
            Option::Some(v) => 1 + v.size(),
        }
    }

    fn encode_to(&self, config: &Config, writer: &mut Vec<u8>) -> (n: usize)
    {
        match self {
            Option::None => {
                writer.push(0);
                proof {
                    assert(writer@ =~= old(writer)@ + self.wire(config.endianness));
                }
                1
            },
            Option::Some(v) => {
                writer.push(1);
                proof {
                    assert(writer@ =~= old(writer)@ + seq![1u8]);
                }
                let m: usize = v.encode_to(config, writer);
                proof {
                    assert(writer@ =~= old(writer)@ + self.wire(config.endianness));
                }
                1 + m
            },
        }
    }
}

impl<T: Encode, E: Encode> Encode for Result<T, E> {
    /// One discriminant byte (0 = `Ok`, 1 = `Err`), then the payload.
    open spec fn wire(&self, e: Endianness) -> Seq<u8> {
        match self {
            Result::Ok(v) => seq![0u8] + v.wire(e),
            Result::Err(err) => seq![1u8] + err.wire(e),
        }
    }

    fn size(&self) -> (n: usize)
    {
        match self {
            Result::Ok(v) => 1 + v.size(),
            Result::Err(err) => 1 + err.size(),
        }
    }

    fn encode_to(&self, config: &Config, writer: &mut Vec<u8>) -> (n: usize)
    {
        match self {
            Result::Ok(v) => {
                writer.push(0);
                proof {
                    assert(writer@ =~= old(writer)@ + seq![0u8]);
                }
                let m: usize = v.encode_to(config, writer);
                proof {
                    assert(writer@ =~= old(writer)@ + self.wire(config.endianness));
                }
                1 + m
            },
            Result::Err(err) => {
                writer.push(1);
                proof {
                    assert(writer@ =~= old(writer)@ + seq![1u8]);
                }
                let m: usize = err.encode_to(config, writer);
                proof {
                    assert(writer@ =~= old(writer)@ + self.wire(config.endianness));
                }
                1 + m
            },
        }
    }
}

impl<T: Encode> Encode for Box<T> {
    /// An exclusive ownership wrapper is a transparent passthrough of the
    /// wrapped value's encoding.
    open spec fn wire(&self, e: Endianness) -> Seq<u8> {
        (**self).wire(e)
    }

    fn size(&self) -> (n: usize)
    {
        (**self).size()
    }

    fn encode_to(&self, config: &Config, writer: &mut Vec<u8>) -> (n: usize)
    {
        (**self).encode_to(config, writer)
    }
}

impl<T0: Encode> Encode for (T0,) {
    /// A tuple is the concatenation of its components' encodings, in
    /// declared order, with no prefix.
    open spec fn wire(&self, e: Endianness) -> Seq<u8> {
        self.0.wire(e)
    }

    fn size(&self) -> (n: usize)
    {
        self.0.size()
    }

    fn encode_to(&self, config: &Config, writer: &mut Vec<u8>) -> (n: usize)
    {
        let n0: usize = self.0.encode_to(config, writer);
        proof {
            assert(writer@ =~= old(writer)@ + self.wire(config.endianness));
        }
        n0
    }
}

impl<T0: Encode, T1: Encode> Encode for (T0, T1) {
    open spec fn wire(&self, e: Endianness) -> Seq<u8> {
        self.0.wire(e) + self.1.wire(e)
    }

    fn size(&self) -> (n: usize)
    {
        self.0.size() + self.1.size()
    }

    fn encode_to(&self, config: &Config, writer: &mut Vec<u8>) -> (n: usize)
    {
        let n0: usize = self.0.encode_to(config, writer);
        let n1: usize = self.1.encode_to(config, writer);
        proof {
            assert(writer@ =~= old(writer)@ + self.wire(config.endianness));
        }
        n0 + n1
    }
}

impl<T0: Encode, T1: Encode, T2: Encode> Encode for (T0, T1, T2) {
    open spec fn wire(&self, e: Endianness) -> Seq<u8> {
        self.0.wire(e) + self.1.wire(e) + self.2.wire(e)
    }

    fn size(&self) -> (n: usize)
    {
        self.0.size() + self.1.size() + self.2.size()
    }

    fn encode_to(&self, config: &Config, writer: &mut Vec<u8>) -> (n: usize)
    {
        let n0: usize = self.0.encode_to(config, writer);
        let n1: usize = self.1.encode_to(config, writer);
        let n2: usize = self.2.encode_to(config, writer);
        proof {
            assert(writer@ =~= old(writer)@ + self.wire(config.endianness));
        }
        n0 + n1 + n2
    }
}

impl<T0: Encode, T1: Encode, T2: Encode, T3: Encode> Encode for (T0, T1, T2, T3) {
    open spec fn wire(&self, e: Endianness) -> Seq<u8> {
        self.0.wire(e) + self.1.wire(e) + self.2.wire(e) + self.3.wire(e)
    }

    fn size(&self) -> (n: usize)
    {
        self.0.size() + self.1.size() + self.2.size() + self.3.size()
    }

    fn encode_to(&self, config: &Config, writer: &mut Vec<u8>) -> (n: usize)
    {
        let n0: usize = self.0.encode_to(config, writer);
        let n1: usize = self.1.encode_to(config, writer);
        let n2: usize = self.2.encode_to(config, writer);
        let n3: usize = self.3.encode_to(config, writer);
        proof {
            assert(writer@ =~= old(writer)@ + self.wire(config.endianness));
        }
        n0 + n1 + n2 + n3
    }
}

impl<T: Encode> Encode for std::rc::Rc<T> {
    /// A shared ownership wrapper is a transparent passthrough of the
    /// wrapped value's encoding.
    open spec fn wire(&self, e: Endianness) -> Seq<u8> {
        (**self).wire(e)
    }

    fn size(&self) -> (n: usize)
    {
        (**self).size()
    }

    fn encode_to(&self, config: &Config, writer: &mut Vec<u8>) -> (n: usize)
    {
        (**self).encode_to(config, writer)
    }
}

impl<T: Encode> Encode for std::sync::Arc<T> {
    /// A thread-safe shared ownership wrapper is a transparent passthrough
    /// of the wrapped value's encoding.
    open spec fn wire(&self, e: Endianness) -> Seq<u8> {
        (**self).wire(e)
    }

    fn size(&self) -> (n: usize)
    {
        (**self).size()
    }

    fn encode_to(&self, config: &Config, writer: &mut Vec<u8>) -> (n: usize)
    {
        (**self).encode_to(config, writer)
    }
}

impl<T: Encode + ?Sized> Encode for &T {
    /// A shared reference is a transparent passthrough of the referent's
    /// encoding.
    open spec fn wire(&self, e: Endianness) -> Seq<u8> {
        (**self).wire(e)
    }

    fn size(&self) -> (n: usize)
    {
        (**self).size()
    }

    fn encode_to(&self, config: &Config, writer: &mut Vec<u8>) -> (n: usize)
    {
        (**self).encode_to(config, writer)
    }
}

impl Encode for () {
    /// A zero-sized value encodes to zero bytes.
    open spec fn wire(&self, e: Endianness) -> Seq<u8> {
        Seq::empty()
    }

    fn size(&self) -> (n: usize)
    {
        0
    }

    fn encode_to(&self, config: &Config, writer: &mut Vec<u8>) -> (n: usize)
    {
        proof {
            assert(writer@ =~= writer@ + Seq::<u8>::empty());
        }
        0
    }
}

} // verus!
