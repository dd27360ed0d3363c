//! The round-trip law: no supported encoding is lossy.
//!
//! Every type that is both encodable and decodable carries a proof that the
//! specification parser, run on that value's encoded bytes followed by
//! anything at all, yields exactly that value's model and consumes exactly
//! the encoded bytes. Together with the contracts of
//! [`Encode::encode_to`](crate::encode::Encode) and
//! [`Decode::decode_from`](crate::decode::Decode), this makes
//! decode-after-encode the identity for every supported type.

use std::collections::VecDeque;

use vstd::prelude::*;
use vstd::std_specs::vec::axiom_spec_len;
use vstd::utf8::char_is_scalar;
use vstd::utf8::char_u32_cast;
use vstd::utf8::encode_utf8;
use vstd::utf8::encode_utf8_decode_utf8;
use vstd::utf8::encode_utf8_valid_utf8;

use crate::config::Endianness;
use crate::decode::Decode;
use crate::decode::lemma_seq_dec_u8;
use crate::decode::seq_dec;
use crate::decode::seq_models;
use crate::encode::Encode;
use crate::encode::seq_wire;
use crate::error::Error;
use crate::wire::lemma_pow256_values;
use crate::wire::lemma_twos_complement_roundtrip;
use crate::wire::lemma_uint_wire_len;
use crate::wire::lemma_uint_wire_roundtrip;
use crate::wire::twos_complement;
use crate::wire::uint_wire;

verus! {

/// Decoding inverts encoding.
pub trait Lossless: Encode + Decode {
    /// Running the specification parser on this value's encoded bytes,
    /// followed by any tail, yields exactly this value's model and
    /// consumes exactly the encoded bytes. The law is stated for every
    /// value whose encoding fits the native index type: only such values
    /// can be encoded at all.
    proof fn lemma_round_trip(&self, e: Endianness, tail: Seq<u8>)
        requires
            self.wire(e).len() <= usize::MAX,
        ensures
            Self::dec(e, self.wire(e) + tail) == Ok::<(Self::Model, int), Error>(
                ((*self).model(), self.wire(e).len() as int),
            ),
    ;
}

impl Lossless for u8 {
    proof fn lemma_round_trip(&self, e: Endianness, tail: Seq<u8>) {
        lemma_pow256_values();
        lemma_uint_wire_len(*self as nat, 1, e);
        lemma_uint_wire_roundtrip(*self as nat, 1, e);
        assert((self.wire(e) + tail).take(1) =~= self.wire(e));
    }
}

impl Lossless for u16 {
    proof fn lemma_round_trip(&self, e: Endianness, tail: Seq<u8>) {
        lemma_pow256_values();
        lemma_uint_wire_len(*self as nat, 2, e);
        lemma_uint_wire_roundtrip(*self as nat, 2, e);
        assert((self.wire(e) + tail).take(2) =~= self.wire(e));
    }
}

impl Lossless for u32 {
    proof fn lemma_round_trip(&self, e: Endianness, tail: Seq<u8>) {
        lemma_pow256_values();
        lemma_uint_wire_len(*self as nat, 4, e);
        lemma_uint_wire_roundtrip(*self as nat, 4, e);
        assert((self.wire(e) + tail).take(4) =~= self.wire(e));
    }
}

impl Lossless for u64 {
    proof fn lemma_round_trip(&self, e: Endianness, tail: Seq<u8>) {
        lemma_pow256_values();
        lemma_uint_wire_len(*self as nat, 8, e);
        lemma_uint_wire_roundtrip(*self as nat, 8, e);
        assert((self.wire(e) + tail).take(8) =~= self.wire(e));
    }
}

impl Lossless for u128 {
    proof fn lemma_round_trip(&self, e: Endianness, tail: Seq<u8>) {
        lemma_pow256_values();
        lemma_uint_wire_len(*self as nat, 16, e);
        lemma_uint_wire_roundtrip(*self as nat, 16, e);
        assert((self.wire(e) + tail).take(16) =~= self.wire(e));
    }
}

impl Lossless for usize {
    proof fn lemma_round_trip(&self, e: Endianness, tail: Seq<u8>) {
        lemma_pow256_values();
        lemma_uint_wire_len(*self as nat, 8, e);
        lemma_uint_wire_roundtrip(*self as nat, 8, e);
        assert((self.wire(e) + tail).take(8) =~= self.wire(e));
    }
}

impl Lossless for i8 {
    proof fn lemma_round_trip(&self, e: Endianness, tail: Seq<u8>) {
        lemma_pow256_values();
        let u = twos_complement(*self as int, 1);
        lemma_twos_complement_roundtrip(*self as int, 1);
        lemma_uint_wire_len(u, 1, e);
        lemma_uint_wire_roundtrip(u, 1, e);
        assert((self.wire(e) + tail).take(1) =~= self.wire(e));
    }
}

impl Lossless for i16 {
    proof fn lemma_round_trip(&self, e: Endianness, tail: Seq<u8>) {
        lemma_pow256_values();
        let u = twos_complement(*self as int, 2);
        lemma_twos_complement_roundtrip(*self as int, 2);
        lemma_uint_wire_len(u, 2, e);
        lemma_uint_wire_roundtrip(u, 2, e);
        assert((self.wire(e) + tail).take(2) =~= self.wire(e));
    }
}

impl Lossless for i32 {
    proof fn lemma_round_trip(&self, e: Endianness, tail: Seq<u8>) {
        lemma_pow256_values();
        let u = twos_complement(*self as int, 4);
        lemma_twos_complement_roundtrip(*self as int, 4);
        lemma_uint_wire_len(u, 4, e);
        lemma_uint_wire_roundtrip(u, 4, e);
        assert((self.wire(e) + tail).take(4) =~= self.wire(e));
    }
}

impl Lossless for i64 {
    proof fn lemma_round_trip(&self, e: Endianness, tail: Seq<u8>) {
        lemma_pow256_values();
        let u = twos_complement(*self as int, 8);
        lemma_twos_complement_roundtrip(*self as int, 8);
        lemma_uint_wire_len(u, 8, e);
        lemma_uint_wire_roundtrip(u, 8, e);
        assert((self.wire(e) + tail).take(8) =~= self.wire(e));
    }
}

impl Lossless for i128 {
    proof fn lemma_round_trip(&self, e: Endianness, tail: Seq<u8>) {
        lemma_pow256_values();
        let u = twos_complement(*self as int, 16);
        lemma_twos_complement_roundtrip(*self as int, 16);
        lemma_uint_wire_len(u, 16, e);
        lemma_uint_wire_roundtrip(u, 16, e);
        assert((self.wire(e) + tail).take(16) =~= self.wire(e));
    }
}

impl Lossless for isize {
    proof fn lemma_round_trip(&self, e: Endianness, tail: Seq<u8>) {
        lemma_pow256_values();
        let u = twos_complement(*self as int, 8);
        lemma_twos_complement_roundtrip(*self as int, 8);
        lemma_uint_wire_len(u, 8, e);
        lemma_uint_wire_roundtrip(u, 8, e);
        assert((self.wire(e) + tail).take(8) =~= self.wire(e));
    }
}

impl Lossless for bool {
    proof fn lemma_round_trip(&self, e: Endianness, tail: Seq<u8>) {
        assert((self.wire(e) + tail)[0] == self.wire(e)[0]);
    }
}

impl Lossless for char {
    proof fn lemma_round_trip(&self, e: Endianness, tail: Seq<u8>) {
        lemma_pow256_values();
        let code = *self as u32;
        char_is_scalar(*self);
        char_u32_cast(*self, code);
        lemma_uint_wire_len(code as nat, 4, e);
        lemma_uint_wire_roundtrip(code as nat, 4, e);
        assert((self.wire(e) + tail).take(4) =~= self.wire(e));
    }
}

impl<T0: Lossless> Lossless for (T0,) {
    proof fn lemma_round_trip(&self, e: Endianness, tail: Seq<u8>) {
        let s = self.wire(e) + tail;
        let w0 = self.0.wire(e);
        let t0 = tail;
        assert(s =~= w0 + t0);
        self.0.lemma_round_trip(e, t0);
    }
}

impl<T0: Lossless, T1: Lossless> Lossless for (T0, T1) {
    proof fn lemma_round_trip(&self, e: Endianness, tail: Seq<u8>) {
        let s = self.wire(e) + tail;
        let w0 = self.0.wire(e);
        let w1 = self.1.wire(e);
        let t1 = tail;
        let t0 = w1 + t1;
        assert(s =~= w0 + t0);
        assert(s.skip((w0.len()) as int) =~= w1 + t1);
        self.0.lemma_round_trip(e, t0);
        self.1.lemma_round_trip(e, t1);
    }
}

impl<T0: Lossless, T1: Lossless, T2: Lossless> Lossless for (T0, T1, T2) {
    proof fn lemma_round_trip(&self, e: Endianness, tail: Seq<u8>) {
        let s = self.wire(e) + tail;
        let w0 = self.0.wire(e);
        let w1 = self.1.wire(e);
        let w2 = self.2.wire(e);
        let t2 = tail;
        let t1 = w2 + t2;
        let t0 = w1 + t1;
        assert(s =~= w0 + t0);
        assert(s.skip((w0.len()) as int) =~= w1 + t1);
        assert(s.skip((w0.len() + w1.len()) as int) =~= w2 + t2);
        self.0.lemma_round_trip(e, t0);
        self.1.lemma_round_trip(e, t1);
        self.2.lemma_round_trip(e, t2);
    }
}

impl<T0: Lossless, T1: Lossless, T2: Lossless, T3: Lossless> Lossless for (T0, T1, T2, T3) {
    proof fn lemma_round_trip(&self, e: Endianness, tail: Seq<u8>) {
        let s = self.wire(e) + tail;
        let w0 = self.0.wire(e);
        let w1 = self.1.wire(e);
        let w2 = self.2.wire(e);
        let w3 = self.3.wire(e);
        let t3 = tail;
        let t2 = w3 + t3;
        let t1 = w2 + t2;
        let t0 = w1 + t1;
        assert(s =~= w0 + t0);
        assert(s.skip((w0.len()) as int) =~= w1 + t1);
        assert(s.skip((w0.len() + w1.len()) as int) =~= w2 + t2);
        assert(s.skip((w0.len() + w1.len() + w2.len()) as int) =~= w3 + t3);
        self.0.lemma_round_trip(e, t0);
        self.1.lemma_round_trip(e, t1);
        self.2.lemma_round_trip(e, t2);
        self.3.lemma_round_trip(e, t3);
    }
}

impl Lossless for () {
    proof fn lemma_round_trip(&self, e: Endianness, tail: Seq<u8>) {
    }
}

impl<T: Lossless> Lossless for Option<T> {
    proof fn lemma_round_trip(&self, e: Endianness, tail: Seq<u8>) {
        let s = self.wire(e) + tail;
        match self {
            Option::None => {
                assert(s[0] == 0);
            },
            Option::Some(v) => {
                assert(s[0] == 1);
                assert(s.skip(1) =~= v.wire(e) + tail);
                v.lemma_round_trip(e, tail);
            },
        }
    }
}

impl<T: Lossless, E: Lossless> Lossless for Result<T, E> {
    proof fn lemma_round_trip(&self, e: Endianness, tail: Seq<u8>) {
        let s = self.wire(e) + tail;
        match self {
            Result::Ok(v) => {
                assert(s[0] == 0);
                assert(s.skip(1) =~= v.wire(e) + tail);
                v.lemma_round_trip(e, tail);
            },
            Result::Err(err) => {
                assert(s[0] == 1);
                assert(s.skip(1) =~= err.wire(e) + tail);
                err.lemma_round_trip(e, tail);
            },
        }
    }
}

impl<T: Lossless> Lossless for Box<T> {
    proof fn lemma_round_trip(&self, e: Endianness, tail: Seq<u8>) {
        (**self).lemma_round_trip(e, tail);
    }
}

/// For every encodable value, the specification parser run on exactly the
/// value's encoded bytes yields its model and consumes the whole buffer:
/// decode-after-encode is the identity, under either byte order.
pub proof fn lemma_encode_decode_identity<T: Lossless>(v: &T, e: Endianness)
    requires
        v.wire(e).len() <= usize::MAX,
    ensures
        T::dec(e, v.wire(e)) == Ok::<(T::Model, int), Error>(
            ((*v).model(), v.wire(e).len() as int),
        ),
{
    v.lemma_round_trip(e, Seq::empty());
    assert(v.wire(e) + Seq::<u8>::empty() =~= v.wire(e));
}

impl<T: Lossless> Lossless for std::rc::Rc<T> {
    proof fn lemma_round_trip(&self, e: Endianness, tail: Seq<u8>) {
        (**self).lemma_round_trip(e, tail);
    }
}

impl<T: Lossless> Lossless for std::sync::Arc<T> {
    proof fn lemma_round_trip(&self, e: Endianness, tail: Seq<u8>) {
        (**self).lemma_round_trip(e, tail);
    }
}

/// Round trip for a sequence of values: parsing their concatenated
/// encodings, followed by any tail, yields exactly their models and
/// consumes exactly the concatenation.
pub proof fn lemma_seq_round_trip<T: Lossless>(s: Seq<T>, e: Endianness, tail: Seq<u8>)
    requires
        seq_wire(s, e).len() <= usize::MAX,
    ensures
        seq_dec::<T>(e, seq_wire(s, e) + tail, s.len()) == Ok::<(Seq<T::Model>, int), Error>(
            (seq_models(s), seq_wire(s, e).len() as int),
        ),
    decreases s.len(),
{
    if s.len() == 0 {
        assert(seq_models(s) =~= Seq::<T::Model>::empty());
    } else {
        let head = s[0];
        let rest = s.drop_first();
        let hw = head.wire(e);
        let rw = seq_wire(rest, e);
        assert(seq_wire(s, e) == hw + rw);
        assert(seq_wire(s, e) + tail =~= hw + (rw + tail));
        head.lemma_round_trip(e, rw + tail);
        assert((seq_wire(s, e) + tail).skip(hw.len() as int) =~= rw + tail);
        lemma_seq_round_trip::<T>(rest, e, tail);
        assert(seq![head.model()] + seq_models(rest) =~= seq_models(s));
    }
}

impl<T: Lossless, const N: usize> Lossless for [T; N] {
    proof fn lemma_round_trip(&self, e: Endianness, tail: Seq<u8>) {
        lemma_seq_round_trip::<T>(self@, e, tail);
    }
}

impl<T: Lossless> Lossless for VecDeque<T> {
    proof fn lemma_round_trip(&self, e: Endianness, tail: Seq<u8>) {
        lemma_pow256_values();
        vstd::std_specs::vecdeque::axiom_spec_len(self);
        let len = self@.len();
        lemma_uint_wire_len(len, 8, e);
        lemma_uint_wire_roundtrip(len, 8, e);
        let prefix = uint_wire(len, 8, e);
        let body = seq_wire(self@, e);
        assert(self.wire(e) + tail =~= prefix + (body + tail));
        assert((self.wire(e) + tail).take(8) =~= prefix);
        assert((self.wire(e) + tail).skip(8) =~= body + tail);
        lemma_seq_round_trip::<T>(self@, e, tail);
    }
}

impl Lossless for String {
    proof fn lemma_round_trip(&self, e: Endianness, tail: Seq<u8>) {
        lemma_pow256_values();
        let bytes = encode_utf8(self@);
        let blen = bytes.len();
        lemma_uint_wire_len(blen, 8, e);
        lemma_uint_wire_roundtrip(blen, 8, e);
        let prefix = uint_wire(blen, 8, e);
        let s = self.wire(e) + tail;
        assert(s.take(8) =~= prefix);
        assert(s.skip(8) =~= bytes + tail);
        lemma_seq_dec_u8(e, bytes + tail, blen);
        assert((bytes + tail).take(blen as int) =~= bytes);
        encode_utf8_valid_utf8(self@);
        encode_utf8_decode_utf8(self@);
    }
}

impl<T: Lossless> Lossless for Vec<T> {
    proof fn lemma_round_trip(&self, e: Endianness, tail: Seq<u8>) {
        lemma_pow256_values();
        axiom_spec_len(self);
        let len = self@.len();
        lemma_uint_wire_len(len, 8, e);
        lemma_uint_wire_roundtrip(len, 8, e);
        let prefix = uint_wire(len, 8, e);
        let body = seq_wire(self@, e);
        assert(self.wire(e) + tail =~= prefix + (body + tail));
        assert((self.wire(e) + tail).take(8) =~= prefix);
        assert((self.wire(e) + tail).skip(8) =~= body + tail);
        lemma_seq_round_trip::<T>(self@, e, tail);
    }
}

} // verus!
