//! Byte-level layout of fixed-width unsigned integers.
//!
//! A value is laid out as `n` base-256 digits, least-significant first
//! (little endian) or most-significant first (big endian). These spec
//! functions are the wire format's definition; the exec functions write and
//! read it through the in-memory streams.

use vstd::prelude::*;

use crate::config::Endianness;
use crate::error::Error;
use crate::io::ByteReader;

verus! {

/// `256^n`: the number of values an `n`-byte field can hold.
pub open spec fn pow256(n: nat) -> nat
    decreases n,
{
    if n == 0 {
        1
    } else {
        256 * pow256((n - 1) as nat)
    }
}

/// The `n` base-256 digits of `v`, least-significant first.
pub open spec fn le_bytes_of(v: nat, n: nat) -> Seq<u8>
    decreases n,
{
    if n == 0 {
        Seq::empty()
    } else {
        seq![(v % 256) as u8] + le_bytes_of(v / 256, (n - 1) as nat)
    }
}

/// The value of a little-endian digit sequence.
pub open spec fn uint_of_le(s: Seq<u8>) -> nat
    decreases s.len(),
{
    if s.len() == 0 {
        0
    } else {
        s[0] as nat + 256 * uint_of_le(s.drop_first())
    }
}

/// The value of a big-endian digit sequence.
pub open spec fn uint_of_be(s: Seq<u8>) -> nat
    decreases s.len(),
{
    if s.len() == 0 {
        0
    } else {
        256 * uint_of_be(s.take(s.len() - 1)) + s[s.len() - 1] as nat
    }
}

/// The `n`-byte field holding `v` in byte order `e`.
pub open spec fn uint_wire(v: nat, n: nat, e: Endianness) -> Seq<u8> {
    match e {
        Endianness::LittleEndian => le_bytes_of(v, n),
        Endianness::BigEndian => le_bytes_of(v, n).reverse(),
    }
}

/// The value of an `n`-byte field in byte order `e`.
pub open spec fn uint_of_wire(s: Seq<u8>, e: Endianness) -> nat {
    match e {
        Endianness::LittleEndian => uint_of_le(s),
        Endianness::BigEndian => uint_of_be(s),
    }
}

/// An `n`-byte field is `n` bytes long.
pub proof fn lemma_le_bytes_len(v: nat, n: nat)
    ensures
        le_bytes_of(v, n).len() == n,
    decreases n,
{
    if n > 0 {
        lemma_le_bytes_len(v / 256, (n - 1) as nat);
    }
}

/// Powers of 256 do not decrease.
pub proof fn lemma_pow256_increases(a: nat, b: nat)
    requires
        a <= b,
    ensures
        pow256(a) <= pow256(b),
    decreases b,
{
    if a < b && b > 0 {
        lemma_pow256_increases(a, (b - 1) as nat);
        assert(pow256(b) == 256 * pow256((b - 1) as nat));
        assert(pow256((b - 1) as nat) <= 256 * pow256((b - 1) as nat));
    }
}

/// The field widths this crate uses, as concrete powers of 256.
pub proof fn lemma_pow256_values()
    ensures
        pow256(0) == 1,
        pow256(1) == 0x100,
        pow256(2) == 0x10000,
        pow256(4) == 0x100000000,
        pow256(8) == 0x10000000000000000,
        pow256(16) == 0x100000000000000000000000000000000,
{
    reveal_with_fuel(pow256, 17);
}

/// A little-endian digit sequence reads back the value it was built from,
/// provided the value fits the field.
pub proof fn lemma_le_bytes_roundtrip(v: nat, n: nat)
    requires
        v < pow256(n),
    ensures
        uint_of_le(le_bytes_of(v, n)) == v,
    decreases n,
{
    if n == 0 {
        assert(le_bytes_of(v, n).len() == 0);
    } else {
        let rest = le_bytes_of(v / 256, (n - 1) as nat);
        lemma_le_bytes_len(v / 256, (n - 1) as nat);
        let s = le_bytes_of(v, n);
        assert(s == seq![(v % 256) as u8] + rest);
        assert(s.drop_first() =~= rest);
        assert(v / 256 < pow256((n - 1) as nat)) by {
            assert(pow256(n) == 256 * pow256((n - 1) as nat));
        }
        lemma_le_bytes_roundtrip(v / 256, (n - 1) as nat);
        assert(uint_of_le(s) == (v % 256) + 256 * (v / 256));
    }
}

/// The value of a digit sequence fits its width.
pub proof fn lemma_uint_of_le_bound(s: Seq<u8>)
    ensures
        uint_of_le(s) < pow256(s.len()),
    decreases s.len(),
{
    if s.len() > 0 {
        lemma_uint_of_le_bound(s.drop_first());
    }
}

/// Reading a digit sequence in big-endian order is reading its reversal in
/// little-endian order.
pub proof fn lemma_uint_of_be_reverse(s: Seq<u8>)
    ensures
        uint_of_be(s.reverse()) == uint_of_le(s),
    decreases s.len(),
{
    if s.len() > 0 {
        let r = s.reverse();
        assert(r.len() == s.len());
        assert(r.take(r.len() - 1) =~= s.drop_first().reverse());
        assert(r[r.len() - 1] == s[0]);
        lemma_uint_of_be_reverse(s.drop_first());
    }
}

/// An `n`-byte field reads back the value it was built from, in either byte
/// order, provided the value fits the field.
pub proof fn lemma_uint_wire_roundtrip(v: nat, n: nat, e: Endianness)
    requires
        v < pow256(n),
    ensures
        uint_of_wire(uint_wire(v, n, e), e) == v,
{
    lemma_le_bytes_roundtrip(v, n);
    match e {
        Endianness::LittleEndian => {
        },
        Endianness::BigEndian => {
            lemma_uint_of_be_reverse(le_bytes_of(v, n));
        },
    }
}

/// An `n`-byte field is `n` bytes long, in either byte order.
pub proof fn lemma_uint_wire_len(v: nat, n: nat, e: Endianness)
    ensures
        uint_wire(v, n, e).len() == n,
{
    lemma_le_bytes_len(v, n);
}

/// Appends the `n`-byte field holding `v` in byte order `e` to `writer`.
pub fn write_uint(writer: &mut Vec<u8>, v: u128, n: usize, e: Endianness)
    requires
        (v as nat) < pow256(n as nat),
        old(writer)@.len() + n <= usize::MAX,
    ensures
        final(writer)@ == old(writer)@ + uint_wire(v as nat, n as nat, e),
{
    let ghost all = le_bytes_of(v as nat, n as nat);
    proof {
        lemma_le_bytes_len(v as nat, n as nat);
    }
    let mut tmp: Vec<u8> = Vec::new();
    let mut x: u128 = v;
    let mut i: usize = 0;
    while i < n
        invariant
            i <= n,
            tmp@.len() == i,
            all == tmp@ + le_bytes_of(x as nat, (n - i) as nat),
        decreases n - i,
    {
        let b: u8 = (x % 256) as u8;
        proof {
            assert(le_bytes_of(x as nat, (n - i) as nat) == seq![(x as nat % 256) as u8]
                + le_bytes_of(x as nat / 256, (n - i - 1) as nat));
            assert(tmp@ + le_bytes_of(x as nat, (n - i) as nat) =~= tmp@.push(b) + le_bytes_of(
                x as nat / 256,
                (n - i - 1) as nat,
            ));
        }
        tmp.push(b);
        x = x / 256;
        i = i + 1;
    }
    proof {
        assert(all =~= tmp@);
    }
    match e {
        Endianness::LittleEndian => {
            let mut moved: Vec<u8> = tmp;
            writer.append(&mut moved);
            proof {
                assert(writer@ == old(writer)@ + all);
            }
        },
        Endianness::BigEndian => {
            let ghost rev = all.reverse();
            let mut j: usize = 0;
            while j < n
                invariant
                    j <= n,
                    n == tmp@.len(),
                    all == tmp@,
                    rev == all.reverse(),
                    writer@ == old(writer)@ + rev.take(j as int),
                decreases n - j,
            {
                let b: u8 = tmp[n - 1 - j];
                proof {
                    assert(rev[j as int] == tmp@[n - 1 - j]);
                    assert(rev.take(j + 1) =~= rev.take(j as int).push(b));
                    assert((old(writer)@ + rev.take(j as int)).push(b) =~= old(writer)@ + rev.take(
                        j + 1,
                    ));
                }
                writer.push(b);
                j = j + 1;
            }
            proof {
                assert(rev.take(n as int) =~= rev);
            }
        },
    }
}

/// Consumes an `n`-byte field in byte order `e` and returns its value, or
/// fails without consuming anything when fewer than `n` bytes remain.
pub fn read_uint(reader: &mut ByteReader, n: usize, e: Endianness) -> (r: Result<u128, Error>)
    requires
        old(reader).wf(),
        n <= 16,
    ensures
        final(reader).wf(),
        final(reader).bytes@ == old(reader).bytes@,
        old(reader).remaining().len() >= n ==> (r matches Ok(v)
            && v as nat == uint_of_wire(old(reader).remaining().take(n as int), e)
            && final(reader).pos == old(reader).pos + n),
        old(reader).remaining().len() < n ==> (r matches Err(err)
            && err == Error::IoError
            && final(reader).pos == old(reader).pos),
{
    let chunk: &[u8] = match reader.read_exact(n) {
        Ok(s) => s,
        Err(err) => {
            return Err(err);
        },
    };
    proof {
        lemma_pow256_values();
    }
    let mut acc: u128 = 0;
    match e {
        Endianness::LittleEndian => {
            let mut i: usize = n;
            while i > 0
                invariant
                    i <= n,
                    n <= 16,
                    n == chunk@.len(),
                    acc as nat == uint_of_le(chunk@.skip(i as int)),
                    pow256(16) == 0x100000000000000000000000000000000,
                decreases i,
            {
                proof {
                    lemma_uint_of_le_bound(chunk@.skip(i - 1));
                    lemma_pow256_increases((n - i + 1) as nat, 16);
                    assert(chunk@.skip(i - 1).drop_first() =~= chunk@.skip(i as int));
                    assert(uint_of_le(chunk@.skip(i - 1)) == chunk@[i - 1] as nat + 256 * (
                    acc as nat));
                }
                acc = acc * 256 + (chunk[i - 1] as u128);
                i = i - 1;
            }
            proof {
                assert(chunk@.skip(0) =~= chunk@);
            }
        },
        Endianness::BigEndian => {
            let mut i: usize = 0;
            while i < n
                invariant
                    i <= n,
                    n <= 16,
                    n == chunk@.len(),
                    acc as nat == uint_of_be(chunk@.take(i as int)),
                    pow256(16) == 0x100000000000000000000000000000000,
                decreases n - i,
            {
                proof {
                    lemma_uint_of_be_bound(chunk@.take(i as int));
                    lemma_pow256_increases((i + 1) as nat, 16);
                    assert(pow256((i + 1) as nat) == 256 * pow256(i as nat));
                    assert(256 * (acc as nat) + 256 <= pow256((i + 1) as nat));
                    assert(chunk@.take(i + 1).take(i as int) =~= chunk@.take(i as int));
                    assert(chunk@.take(i + 1)[i as int] == chunk@[i as int]);
                    assert(uint_of_be(chunk@.take(i + 1)) == 256 * (acc as nat) + chunk@[i as int]
                        as nat);
                }
                acc = acc * 256 + (chunk[i] as u128);
                i = i + 1;
            }
            proof {
                assert(chunk@.take(n as int) =~= chunk@);
            }
        },
    }
    Ok(acc)
}

/// The value of a big-endian digit sequence fits its width.
pub proof fn lemma_uint_of_be_bound(s: Seq<u8>)
    ensures
        uint_of_be(s) < pow256(s.len()),
    decreases s.len(),
{
    if s.len() > 0 {
        lemma_uint_of_be_bound(s.take(s.len() - 1));
    }
}

/// The value of an `n`-byte field fits its width, in either byte order.
pub proof fn lemma_uint_of_wire_bound(s: Seq<u8>, e: Endianness)
    ensures
        uint_of_wire(s, e) < pow256(s.len()),
{
    match e {
        Endianness::LittleEndian => {
            lemma_uint_of_le_bound(s);
        },
        Endianness::BigEndian => {
            lemma_uint_of_be_bound(s);
        },
    }
}

/// The two's-complement image of a signed value in an `n`-byte field.
pub open spec fn twos_complement(v: int, n: nat) -> nat {
    if v >= 0 {
        v as nat
    } else {
        (v + pow256(n)) as nat
    }
}

/// The signed value whose two's-complement image in an `n`-byte field is
/// `u`: the field's top bit is the sign.
pub open spec fn from_twos_complement(u: nat, n: nat) -> int {
    if 2 * u < pow256(n) {
        u as int
    } else {
        u - pow256(n)
    }
}

/// The two's-complement mapping is a bijection between the signed and the
/// unsigned range of an `n`-byte field.
pub proof fn lemma_twos_complement_roundtrip(v: int, n: nat)
    requires
        -pow256(n) <= 2 * v < pow256(n),
    ensures
        twos_complement(v, n) < pow256(n),
        from_twos_complement(twos_complement(v, n), n) == v,
{
}

/// The two's-complement image of an `i8`.
pub fn u_of_i8(v: i8) -> (r: u8)
    ensures
        r as nat == twos_complement(v as int, 1),
{
    proof {
        lemma_pow256_values();
    }
    if v >= 0 {
        v as u8
    } else {
        ((v as i16) + 0x100) as u8
    }
}

/// The `i8` with the given two's-complement image.
pub fn i8_of_u(u: u8) -> (r: i8)
    ensures
        r as int == from_twos_complement(u as nat, 1),
{
    proof {
        lemma_pow256_values();
    }
    if u < 0x80 {
        u as i8
    } else {
        ((u as i16) - 0x100) as i8
    }
}

/// The two's-complement image of an `i16`.
pub fn u_of_i16(v: i16) -> (r: u16)
    ensures
        r as nat == twos_complement(v as int, 2),
{
    proof {
        lemma_pow256_values();
    }
    if v >= 0 {
        v as u16
    } else {
        ((v as i32) + 0x10000) as u16
    }
}

/// The `i16` with the given two's-complement image.
pub fn i16_of_u(u: u16) -> (r: i16)
    ensures
        r as int == from_twos_complement(u as nat, 2),
{
    proof {
        lemma_pow256_values();
    }
    if u < 0x8000 {
        u as i16
    } else {
        ((u as i32) - 0x10000) as i16
    }
}

/// The two's-complement image of an `i32`.
pub fn u_of_i32(v: i32) -> (r: u32)
    ensures
        r as nat == twos_complement(v as int, 4),
{
    proof {
        lemma_pow256_values();
    }
    if v >= 0 {
        v as u32
    } else {
        ((v as i64) + 0x100000000) as u32
    }
}

/// The `i32` with the given two's-complement image.
pub fn i32_of_u(u: u32) -> (r: i32)
    ensures
        r as int == from_twos_complement(u as nat, 4),
{
    proof {
        lemma_pow256_values();
    }
    if u < 0x80000000 {
        u as i32
    } else {
        ((u as i64) - 0x100000000) as i32
    }
}

/// The two's-complement image of an `i64`.
pub fn u_of_i64(v: i64) -> (r: u64)
    ensures
        r as nat == twos_complement(v as int, 8),
{
    proof {
        lemma_pow256_values();
    }
    if v >= 0 {
        v as u64
    } else {
        ((v as i128) + 0x10000000000000000) as u64
    }
}

/// The `i64` with the given two's-complement image.
pub fn i64_of_u(u: u64) -> (r: i64)
    ensures
        r as int == from_twos_complement(u as nat, 8),
{
    proof {
        lemma_pow256_values();
    }
    if u < 0x8000000000000000 {
        u as i64
    } else {
        ((u as i128) - 0x10000000000000000) as i64
    }
}

/// The two's-complement image of an `i128`. No wider integer type exists,
/// so the negative case is computed as a distance from the field maximum.
pub fn u_of_i128(v: i128) -> (r: u128)
    ensures
        r as nat == twos_complement(v as int, 16),
{
    proof {
        lemma_pow256_values();
    }
    if v >= 0 {
        v as u128
    } else {
        let m: i128 = -(v + 1);
        u128::MAX - (m as u128)
    }
}

/// The `i128` with the given two's-complement image.
pub fn i128_of_u(u: u128) -> (r: i128)
    ensures
        r as int == from_twos_complement(u as nat, 16),
{
    proof {
        lemma_pow256_values();
    }
    if u < 0x80000000000000000000000000000000 {
        u as i128
    } else {
        let m: u128 = u128::MAX - u;
        -(m as i128) - 1
    }
}

/// The two's-complement image of an `isize`, widened to the 8-byte index
/// field this wire format uses.
pub fn u_of_isize(v: isize) -> (r: u64)
    ensures
        r as nat == twos_complement(v as int, 8),
{
    proof {
        lemma_pow256_values();
    }
    if v >= 0 {
        v as u64
    } else {
        ((v as i128) + 0x10000000000000000) as u64
    }
}

/// The `isize` with the given two's-complement image in an 8-byte field,
/// when it fits the native range.
pub fn isize_of_u(u: u64) -> (r: Result<isize, Error>)
    ensures
        isize::MIN <= from_twos_complement(u as nat, 8) <= isize::MAX ==> (r matches Ok(v) && v
            as int == from_twos_complement(u as nat, 8)),
        !(isize::MIN <= from_twos_complement(u as nat, 8) <= isize::MAX) ==> (r matches Err(err)
            && err == Error::TryFromIntError),
{
    let v: i64 = i64_of_u(u);
    if isize::MIN as i64 <= v && v <= isize::MAX as i64 {
        Ok(v as isize)
    } else {
        Err(Error::TryFromIntError)
    }
}

} // verus!
