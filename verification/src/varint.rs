//! Base-128 variable-length integers, used for compact unsigned values and
//! sum-type discriminants.
//!
//! A value is split into 7-bit groups, least-significant first. Every group
//! but the last is written with the continuation bit (0x80) set; the last
//! group has it clear. Zero takes one byte. The encoding never depends on
//! the configured byte order.

use vstd::prelude::*;

use crate::config::Config;
use crate::config::Endianness;
use crate::decode::Decode;
use crate::encode::Encode;
use crate::error::Error;
use crate::io::ByteReader;
use crate::roundtrip::Lossless;
use crate::zigzag::ZigZag;
use crate::zigzag::unzigzag;
use crate::zigzag::zigzag;

verus! {

/// Base-128 variable-length integer wrapping an unsigned 128-bit
/// magnitude.
#[derive(Debug, PartialEq, Eq, Structural, PartialOrd, Ord, Clone, Copy)]
pub struct VarInt(pub u128);

/// `128^n`: the number of values `n` 7-bit groups can hold.
pub open spec fn pow128(n: nat) -> nat
    decreases n,
{
    if n == 0 {
        1
    } else {
        128 * pow128((n - 1) as nat)
    }
}

/// Powers of 128 do not decrease.
pub proof fn lemma_pow128_increases(a: nat, b: nat)
    requires
        a <= b,
    ensures
        pow128(a) <= pow128(b),
    decreases b,
{
    if a < b && b > 0 {
        lemma_pow128_increases(a, (b - 1) as nat);
        assert(pow128(b) == 128 * pow128((b - 1) as nat));
        assert(pow128((b - 1) as nat) <= 128 * pow128((b - 1) as nat));
    }
}

/// The group counts this module reasons about, as concrete powers of 128.
pub proof fn lemma_pow128_values()
    ensures
        pow128(0) == 1,
        pow128(1) == 0x80,
        pow128(17) == 0x800000000000000000000000000000,
        pow128(18) == 0x40000000000000000000000000000000,
        pow128(19) == 0x2000000000000000000000000000000000,
{
    reveal_with_fuel(pow128, 20);
}

/// The base-128 groups of `v`, low 7 bits first: every group but the last
/// carries the continuation bit.
pub open spec fn varint_wire(v: nat) -> Seq<u8>
    decreases v,
{
    if v < 128 {
        seq![v as u8]
    } else {
        seq![((v % 128) + 128) as u8] + varint_wire(v / 128)
    }
}

/// A value that fits `m` 7-bit groups takes at most `m` bytes.
pub proof fn lemma_varint_wire_len_le(v: nat, m: nat)
    requires
        v < pow128(m),
        m >= 1,
    ensures
        varint_wire(v).len() <= m,
    decreases v,
{
    if v >= 128 {
        assert(pow128(m) == 128 * pow128((m - 1) as nat));
        if m < 2 {
            assert(pow128(m) <= 128) by {
                lemma_pow128_values();
                lemma_pow128_increases(m, 1);
            }
        }
        assert(v / 128 < pow128((m - 1) as nat)) by (nonlinear_arith)
            requires
                v < 128 * pow128((m - 1) as nat),
        {
        }
        lemma_varint_wire_len_le(v / 128, (m - 1) as nat);
    }
}

/// A base-128 encoding is never empty; a 128-bit magnitude takes at most
/// 19 bytes.
pub proof fn lemma_varint_wire_len(v: nat)
    ensures
        1 <= varint_wire(v).len(),
        v < 0x100000000000000000000000000000000 ==> varint_wire(v).len() <= 19,
    decreases v,
{
    if v >= 128 {
        lemma_varint_wire_len(v / 128);
    }
    if v < 0x100000000000000000000000000000000 {
        lemma_pow128_values();
        assert(v < pow128(19));
        lemma_varint_wire_len_le(v, 19);
    }
}

/// The specification parser for a base-128 group sequence, starting at
/// group index `k`: the absolute value contributed by the remaining groups
/// and the byte count, or the error owed. A 20th group, or a 19th group
/// above 3, would overflow a 128-bit accumulator and is rejected as an
/// integral-conversion failure.
pub open spec fn varint_dec_groups(s: Seq<u8>, k: nat) -> Result<(nat, int), Error>
    decreases s.len(),
{
    if s.len() == 0 {
        Err(Error::IoError)
    } else if k > 18 || (k == 18 && s[0] % 128 >= 4) {
        Err(Error::TryFromIntError)
    } else if s[0] < 128 {
        Ok(((s[0] as nat) * pow128(k), 1))
    } else {
        match varint_dec_groups(s.skip(1), k + 1) {
            Ok((v, n)) => Ok((((s[0] - 128) as nat) * pow128(k) + v, 1 + n)),
            Err(err) => Err(err),
        }
    }
}

/// A successful group parse stays in bounds and yields a value that fits
/// 128 bits, with room for the groups already consumed.
pub proof fn lemma_varint_dec_groups_bounds(s: Seq<u8>, k: nat)
    ensures
        varint_dec_groups(s, k) matches Ok((v, n)) ==> 1 <= n <= s.len() && v + pow128(k)
            <= 0x100000000000000000000000000000000,
    decreases s.len(),
{
    lemma_pow128_values();
    if s.len() > 0 && !(k > 18 || (k == 18 && s[0] % 128 >= 4)) {
        if s[0] < 128 {
            let g = s[0] as nat;
            if k == 18 {
                assert(g * pow128(18) + pow128(18) <= 0x100000000000000000000000000000000)
                    by (nonlinear_arith)
                    requires
                        g <= 3,
                        pow128(18) == 0x40000000000000000000000000000000,
                {
                }
            } else {
                lemma_pow128_increases(k + 1, 18);
                assert(g * pow128(k) + pow128(k) <= 128 * pow128(k)) by (nonlinear_arith)
                    requires
                        g < 128,
                {
                }
                assert(128 * pow128(k) == pow128(k + 1));
            }
        } else {
            lemma_varint_dec_groups_bounds(s.skip(1), k + 1);
            if let Ok((v, n)) = varint_dec_groups(s.skip(1), k + 1) {
                let g = (s[0] - 128) as nat;
                assert(g * pow128(k) + pow128(k) <= pow128(k + 1)) by (nonlinear_arith)
                    requires
                        g < 128,
                        pow128(k + 1) == 128 * pow128(k),
                {
                }
            }
        }
    }
}

impl Encode for VarInt {
    /// The base-128 group sequence of the magnitude; byte order plays no
    /// role.
    open spec fn wire(&self, e: Endianness) -> Seq<u8> {
        varint_wire(self.0 as nat)
    }

    fn size(&self) -> (n: usize)
    {
        proof {
            lemma_varint_wire_len(self.0 as nat);
        }
        let mut num: u128 = self.0;
        let mut counter: usize = 0;
        while num >= 128
            invariant
                counter + varint_wire(num as nat).len() == varint_wire(self.0 as nat).len(),
                varint_wire(self.0 as nat).len() <= 19,
            decreases num,
        {
            num = num / 128;
            counter = counter + 1;
            proof {
                lemma_varint_wire_len(num as nat);
            }
        }
        counter + 1
    }

    fn encode_to(&self, config: &Config, writer: &mut Vec<u8>) -> (n: usize)
    {
        let ghost e = config.endianness;
        let ghost total = varint_wire(self.0 as nat);
        proof {
            lemma_varint_wire_len(self.0 as nat);
        }
        let mut num: u128 = self.0;
        let mut counter: usize = 0;
        while num >= 128
            invariant
                counter == writer@.len() - old(writer)@.len(),
                old(writer)@.len() <= writer@.len(),
                writer@.take(old(writer)@.len() as int) == old(writer)@,
                total == writer@.skip(old(writer)@.len() as int) + varint_wire(num as nat),
                total == varint_wire(self.0 as nat),
                old(writer)@.len() + total.len() <= usize::MAX,
            decreases num,
        {
            let b: u8 = ((num % 128) + 128) as u8;
            proof {
                lemma_varint_wire_len(num as nat);
                assert(varint_wire(num as nat) == seq![((num as nat % 128) + 128) as u8]
                    + varint_wire(num as nat / 128));
                assert(writer@.push(b).skip(old(writer)@.len() as int) =~= writer@.skip(
                    old(writer)@.len() as int,
                ).push(b));
                assert(writer@.skip(old(writer)@.len() as int) + varint_wire(num as nat)
                    =~= writer@.skip(old(writer)@.len() as int).push(b) + varint_wire(
                    num as nat / 128,
                ));
                assert(writer@.push(b).take(old(writer)@.len() as int) =~= writer@.take(
                    old(writer)@.len() as int,
                ));
            }
            writer.push(b);
            num = num / 128;
            counter = counter + 1;
        }
        let b: u8 = num as u8;
        proof {
            assert(varint_wire(num as nat) =~= seq![b]);
            assert(writer@.push(b).skip(old(writer)@.len() as int) =~= writer@.skip(
                old(writer)@.len() as int,
            ).push(b));
            assert(writer@.skip(old(writer)@.len() as int) + varint_wire(num as nat)
                =~= writer@.skip(old(writer)@.len() as int).push(b));
            assert(writer@.push(b).take(old(writer)@.len() as int) =~= writer@.take(
                old(writer)@.len() as int,
            ));
        }
        writer.push(b);
        proof {
            assert(writer@ =~= writer@.take(old(writer)@.len() as int) + writer@.skip(
                old(writer)@.len() as int,
            ));
            assert(writer@ =~= old(writer)@ + total);
        }
        counter + 1
    }
}

impl Decode for VarInt {
    type Model = VarInt;

    open spec fn model(self) -> VarInt {
        self
    }

    /// Groups accumulate from the low end while the continuation bit is
    /// set; the bounded accumulator guard turns stream corruption into an
    /// integral-conversion failure instead of unbounded shift growth.
    open spec fn dec(e: Endianness, s: Seq<u8>) -> Result<(VarInt, int), Error> {
        match varint_dec_groups(s, 0) {
            Ok((v, n)) => Ok((VarInt(v as u128), n)),
            Err(err) => Err(err),
        }
    }

    proof fn lemma_dec_bounds(e: Endianness, s: Seq<u8>) {
        lemma_varint_dec_groups_bounds(s, 0);
    }

    fn decode_from(config: &Config, reader: &mut ByteReader) -> (r: Result<Self, Error>) {
        let ghost e = config.endianness;
        let ghost s0 = old(reader).remaining();
        let ghost pos0 = old(reader).pos;
        proof {
            lemma_pow128_values();
        }
        let mut acc: u128 = 0;
        let mut mult: u128 = 1;
        let mut k: usize = 0;
        loop
            invariant
                reader.wf(),
                reader.bytes@ == old(reader).bytes@,
                pos0 == old(reader).pos,
                pos0 <= reader.pos,
                s0 == old(reader).remaining(),
                k <= 19,
                k <= 18 ==> (mult as nat == pow128(k as nat)),
                (acc as nat) < pow128(k as nat),
                pow128(17) == 0x800000000000000000000000000000,
                pow128(18) == 0x40000000000000000000000000000000,
                match varint_dec_groups(reader.remaining(), k as nat) {
                    Ok((v, n)) => varint_dec_groups(s0, 0) == Ok::<(nat, int), Error>(
                        ((acc as nat) + v, (reader.pos - pos0) + n),
                    ),
                    Err(err) => varint_dec_groups(s0, 0) == Err::<(nat, int), Error>(err),
                },
            decreases 20 - k,
        {
            let ghost rem_k = reader.remaining();
            let b: u8 = match reader.read_byte() {
                Ok(b) => b,
                Err(err) => {
                    return Err(err);
                },
            };
            proof {
                assert(reader.remaining() =~= rem_k.skip(1));
            }
            if k > 18 || (k == 18 && b % 128 >= 4) {
                return Err(Error::TryFromIntError);
            }
            proof {
                assert(pow128((k + 1) as nat) == 128 * pow128(k as nat));
                if k < 18 {
                    lemma_pow128_increases((k + 1) as nat, 18);
                    lemma_pow128_increases(k as nat, 17);
                    assert((b % 128) as nat * pow128(k as nat) + pow128(k as nat) <= pow128(
                        (k + 1) as nat,
                    )) by (nonlinear_arith)
                        requires
                            (b % 128) < 128,
                            pow128((k + 1) as nat) == 128 * pow128(k as nat),
                    {
                    }
                } else {
                    assert((b % 128) as nat * pow128(18) + pow128(18) <= 4 * pow128(18))
                        by (nonlinear_arith)
                        requires
                            (b % 128) < 4,
                    {
                    }
                }
            }
            if b < 128 {
                let v: u128 = acc + (b as u128) * mult;
                proof {
                    assert(varint_dec_groups(rem_k, k as nat) == Ok::<(nat, int), Error>(
                        ((b as nat) * pow128(k as nat), 1),
                    ));
                }
                return Ok(VarInt(v));
            }
            let g: u8 = b - 128;
            proof {
                assert(g == b % 128);
            }
            acc = acc + (g as u128) * mult;
            if k < 18 {
                mult = mult * 128;
            }
            k = k + 1;
        }
    }
}

impl VarInt {
    /// Wraps an unsigned 8-bit value; unsigned values skip ZigZag.
    pub fn from_u8(n: u8) -> (r: VarInt)
        ensures
            r.0 == n,
    {
        VarInt(n as u128)
    }

    /// Wraps an unsigned 16-bit value.
    pub fn from_u16(n: u16) -> (r: VarInt)
        ensures
            r.0 == n,
    {
        VarInt(n as u128)
    }

    /// Wraps an unsigned 32-bit value.
    pub fn from_u32(n: u32) -> (r: VarInt)
        ensures
            r.0 == n,
    {
        VarInt(n as u128)
    }

    /// Wraps an unsigned 64-bit value.
    pub fn from_u64(n: u64) -> (r: VarInt)
        ensures
            r.0 == n,
    {
        VarInt(n as u128)
    }

    /// Wraps an unsigned 128-bit value.
    pub fn from_u128(n: u128) -> (r: VarInt)
        ensures
            r.0 == n,
    {
        VarInt(n)
    }

    /// Wraps a native index value.
    pub fn from_usize(n: usize) -> (r: VarInt)
        ensures
            r.0 == n,
    {
        VarInt(n as u128)
    }

    /// Wraps a signed 8-bit value through its ZigZag image, so small
    /// magnitudes stay small on the wire.
    pub fn from_i8(n: i8) -> (r: VarInt)
        ensures
            r.0 as int == zigzag(n as int),
    {
        VarInt(n.encode_zigzag() as u128)
    }

    /// Wraps a signed 16-bit value through its ZigZag image.
    pub fn from_i16(n: i16) -> (r: VarInt)
        ensures
            r.0 as int == zigzag(n as int),
    {
        VarInt(n.encode_zigzag() as u128)
    }

    /// Wraps a signed 32-bit value through its ZigZag image.
    pub fn from_i32(n: i32) -> (r: VarInt)
        ensures
            r.0 as int == zigzag(n as int),
    {
        VarInt(n.encode_zigzag() as u128)
    }

    /// Wraps a signed 64-bit value through its ZigZag image.
    pub fn from_i64(n: i64) -> (r: VarInt)
        ensures
            r.0 as int == zigzag(n as int),
    {
        VarInt(n.encode_zigzag() as u128)
    }

    /// Wraps a signed 128-bit value through its ZigZag image.
    pub fn from_i128(n: i128) -> (r: VarInt)
        ensures
            r.0 as int == zigzag(n as int),
    {
        VarInt(n.encode_zigzag())
    }

    /// Wraps a native signed index value through its ZigZag image.
    pub fn from_isize(n: isize) -> (r: VarInt)
        ensures
            r.0 as int == zigzag(n as int),
    {
        VarInt(n.encode_zigzag() as u128)
    }

    /// The magnitude as a `u8`, when it fits.
    pub fn to_u8(self) -> (r: Result<u8, Error>)
        ensures
            self.0 <= u8::MAX ==> (r matches Ok(v) && v == self.0),
            self.0 > u8::MAX ==> (r matches Err(err) && err == Error::TryFromIntError),
    {
        if self.0 <= u8::MAX as u128 {
            Ok(self.0 as u8)
        } else {
            Err(Error::TryFromIntError)
        }
    }

    /// The magnitude as a `u16`, when it fits.
    pub fn to_u16(self) -> (r: Result<u16, Error>)
        ensures
            self.0 <= u16::MAX ==> (r matches Ok(v) && v == self.0),
            self.0 > u16::MAX ==> (r matches Err(err) && err == Error::TryFromIntError),
    {
        if self.0 <= u16::MAX as u128 {
            Ok(self.0 as u16)
        } else {
            Err(Error::TryFromIntError)
        }
    }

    /// The magnitude as a `u32`, when it fits.
    pub fn to_u32(self) -> (r: Result<u32, Error>)
        ensures
            self.0 <= u32::MAX ==> (r matches Ok(v) && v == self.0),
            self.0 > u32::MAX ==> (r matches Err(err) && err == Error::TryFromIntError),
    {
        if self.0 <= u32::MAX as u128 {
            Ok(self.0 as u32)
        } else {
            Err(Error::TryFromIntError)
        }
    }

    /// The magnitude as a `u64`, when it fits.
    pub fn to_u64(self) -> (r: Result<u64, Error>)
        ensures
            self.0 <= u64::MAX ==> (r matches Ok(v) && v == self.0),
            self.0 > u64::MAX ==> (r matches Err(err) && err == Error::TryFromIntError),
    {
        if self.0 <= u64::MAX as u128 {
            Ok(self.0 as u64)
        } else {
            Err(Error::TryFromIntError)
        }
    }

    /// The whole magnitude; it always fits.
    pub fn to_u128(self) -> (r: u128)
        ensures
            r == self.0,
    {
        self.0
    }

    /// The magnitude as a native index, when it fits.
    pub fn to_usize(self) -> (r: Result<usize, Error>)
        ensures
            self.0 <= usize::MAX ==> (r matches Ok(v) && v == self.0),
            self.0 > usize::MAX ==> (r matches Err(err) && err == Error::TryFromIntError),
    {
        if self.0 <= usize::MAX as u128 {
            Ok(self.0 as usize)
        } else {
            Err(Error::TryFromIntError)
        }
    }

    /// ZigZag-decodes the magnitude to an `i8`, when the magnitude fits the
    /// 8-bit image range.
    pub fn to_i8(self) -> (r: Result<i8, Error>)
        ensures
            self.0 <= u8::MAX ==> (r matches Ok(v) && v as int == unzigzag(self.0 as int)),
            self.0 > u8::MAX ==> (r matches Err(err) && err == Error::TryFromIntError),
    {
        match self.to_u8() {
            Ok(u) => Ok(i8::decode_zigzag(u)),
            Err(err) => Err(err),
        }
    }

    /// ZigZag-decodes the magnitude to an `i16`, when it fits.
    pub fn to_i16(self) -> (r: Result<i16, Error>)
        ensures
            self.0 <= u16::MAX ==> (r matches Ok(v) && v as int == unzigzag(self.0 as int)),
            self.0 > u16::MAX ==> (r matches Err(err) && err == Error::TryFromIntError),
    {
        match self.to_u16() {
            Ok(u) => Ok(i16::decode_zigzag(u)),
            Err(err) => Err(err),
        }
    }

    /// ZigZag-decodes the magnitude to an `i32`, when it fits.
    pub fn to_i32(self) -> (r: Result<i32, Error>)
        ensures
            self.0 <= u32::MAX ==> (r matches Ok(v) && v as int == unzigzag(self.0 as int)),
            self.0 > u32::MAX ==> (r matches Err(err) && err == Error::TryFromIntError),
    {
        match self.to_u32() {
            Ok(u) => Ok(i32::decode_zigzag(u)),
            Err(err) => Err(err),
        }
    }

    /// ZigZag-decodes the magnitude to an `i64`, when it fits.
    pub fn to_i64(self) -> (r: Result<i64, Error>)
        ensures
            self.0 <= u64::MAX ==> (r matches Ok(v) && v as int == unzigzag(self.0 as int)),
            self.0 > u64::MAX ==> (r matches Err(err) && err == Error::TryFromIntError),
    {
        match self.to_u64() {
            Ok(u) => Ok(i64::decode_zigzag(u)),
            Err(err) => Err(err),
        }
    }

    /// ZigZag-decodes the whole magnitude to an `i128`; it always fits.
    pub fn to_i128(self) -> (r: i128)
        ensures
            r as int == unzigzag(self.0 as int),
    {
        i128::decode_zigzag(self.0)
    }

    /// ZigZag-decodes the magnitude to a native signed index, when it fits
    /// the native image range.
    pub fn to_isize(self) -> (r: Result<isize, Error>)
        ensures
            self.0 <= usize::MAX ==> (r matches Ok(v) && v as int == unzigzag(self.0 as int)),
            self.0 > usize::MAX ==> (r matches Err(err) && err == Error::TryFromIntError),
    {
        match self.to_usize() {
            Ok(u) => Ok(isize::decode_zigzag(u)),
            Err(err) => Err(err),
        }
    }
}

/// Round trip for a base-128 group sequence: parsing the encoding of `v`,
/// starting at group index `k`, yields `v`'s contribution at that index and
/// consumes exactly the encoding, whenever that contribution fits 128 bits.
pub proof fn lemma_varint_groups_round_trip(v: nat, k: nat, tail: Seq<u8>)
    requires
        k <= 18,
        v * pow128(k) < 0x100000000000000000000000000000000,
    ensures
        varint_dec_groups(varint_wire(v) + tail, k) == Ok::<(nat, int), Error>(
            (v * pow128(k), varint_wire(v).len() as int),
        ),
    decreases v,
{
    lemma_pow128_values();
    let s = varint_wire(v) + tail;
    if v < 128 {
        assert(s[0] == v as u8);
        if k == 18 {
            assert(v < 4);
        }
    } else {
        let g = v % 128;
        assert(s[0] == (g + 128) as u8);
        assert(pow128(k + 1) == 128 * pow128(k));
        if k == 18 {
            assert(v * pow128(18) >= 128 * pow128(18)) by (nonlinear_arith)
                requires
                    v >= 128,
            {
            }
        }
        assert(s.skip(1) =~= varint_wire(v / 128) + tail);
        assert((v / 128) * pow128(k + 1) <= v * pow128(k)) by (nonlinear_arith)
            requires
                pow128(k + 1) == 128 * pow128(k),
        {
        }
        lemma_varint_groups_round_trip(v / 128, k + 1, tail);
        assert(g * pow128(k) + (v / 128) * pow128(k + 1) == v * pow128(k)) by (nonlinear_arith)
            requires
                pow128(k + 1) == 128 * pow128(k),
                g == v % 128,
        {
        }
    }
}

impl Lossless for VarInt {
    proof fn lemma_round_trip(&self, e: Endianness, tail: Seq<u8>) {
        lemma_pow128_values();
        lemma_varint_groups_round_trip(self.0 as nat, 0, tail);
        assert((self.0 as nat) * pow128(0) == self.0 as nat) by (nonlinear_arith)
            requires
                pow128(0) == 1,
        {
        }
    }
}

} // verus!
