//! Integers in byte strings.

use vstd::prelude::*;

verus! {

/// The value of four bytes, least significant first.
pub open spec fn le_value(s: Seq<u8>) -> int
    recommends
        s.len() == 4,
{
    s[0] + 0x100 * s[1] + 0x1_0000 * s[2] + 0x100_0000 * s[3]
}

/// The four bytes of `v`, least significant first.
pub open spec fn le_bytes(v: int) -> Seq<u8>
    recommends
        0 <= v < 0x1_0000_0000,
{
    seq![
        (v % 0x100) as u8,
        (v / 0x100 % 0x100) as u8,
        (v / 0x1_0000 % 0x100) as u8,
        (v / 0x100_0000 % 0x100) as u8,
    ]
}

/// The value of bytes, most significant first.
pub open spec fn be_value(s: Seq<u8>) -> int
    decreases s.len(),
{
    if s.len() == 0 {
        0
    } else {
        0x100 * be_value(s.drop_last()) + s.last()
    }
}

/// The lowest `n` bytes of `v`, most significant first.
pub open spec fn be_bytes(v: int, n: nat) -> Seq<u8>
    decreases n,
{
    if n == 0 {
        Seq::empty()
    } else {
        be_bytes(v / 0x100, (n - 1) as nat).push((v % 0x100) as u8)
    }
}

/// A number read from bytes and written again, most significant byte first, gives the same
/// bytes.
pub proof fn law_be_bytes_of_value(s: Seq<u8>)
    ensures
        be_bytes(be_value(s), s.len()) == s,
    decreases s.len(),
{
    if s.len() > 0 {
        law_be_bytes_of_value(s.drop_last());
        assert(be_value(s) / 0x100 == be_value(s.drop_last()));
        assert(be_bytes(be_value(s), s.len()) =~= s);
    }
}

/// The number in `0..2^32` that stands for the 32-bit number `v` in two's complement.
pub open spec fn twos_complement(v: int) -> int {
    if v < 0 {
        v + 0x1_0000_0000
    } else {
        v
    }
}

/// The 32-bit signed number that `v` in `0..2^32` stands for in two's complement.
pub open spec fn signed32(v: int) -> int {
    if v >= 0x8000_0000 {
        v - 0x1_0000_0000
    } else {
        v
    }
}

/// Four bytes written as little-endian and read back give the same number.
pub proof fn law_le_value_of_bytes(v: int)
    requires
        0 <= v < 0x1_0000_0000,
    ensures
        le_bytes(v).len() == 4,
        le_value(le_bytes(v)) == v,
{
    let a = v / 0x100;
    let b = v / 0x1_0000;
    let c = v / 0x100_0000;
    assert(b == a / 0x100 && c == b / 0x100);
}

/// A number read from four bytes and written again gives the same bytes.
pub proof fn law_le_bytes_of_value(s: Seq<u8>)
    requires
        s.len() == 4,
    ensures
        0 <= le_value(s) < 0x1_0000_0000,
        le_bytes(le_value(s)) == s,
{
    let v = le_value(s);
    assert(v / 0x100 == s[1] + 0x100 * s[2] + 0x1_0000 * s[3]);
    assert(v / 0x1_0000 == s[2] + 0x100 * s[3]);
    assert(v / 0x100_0000 == s[3]);
    assert(le_bytes(v) =~= s);
}

/// Reads an unsigned number from the four bytes at `at`.
pub fn read_u32(s: &[u8], at: usize) -> (v: u32)
    requires
        at + 4 <= s@.len(),
    ensures
        v == le_value(s@.subrange(at as int, at + 4)),
{
    s[at] as u32 + 0x100 * (s[at + 1] as u32) + 0x1_0000 * (s[at + 2] as u32) + 0x100_0000 * (s[at
        + 3] as u32)
}

/// Reads a signed number from the four bytes at `at`.
pub fn read_i32(s: &[u8], at: usize) -> (v: i32)
    requires
        at + 4 <= s@.len(),
    ensures
        v == signed32(le_value(s@.subrange(at as int, at + 4))),
{
    as_signed(read_u32(s, at))
}

/// The signed number that `u` stands for in two's complement.
pub fn as_signed(u: u32) -> (v: i32)
    ensures
        v == signed32(u as int),
{
    assert(u as i32 == if u >= 0x8000_0000 {
        u - 0x1_0000_0000
    } else {
        u as int
    }) by (bit_vector);
    u as i32
}

/// The number that stands for `v` in two's complement.
pub fn as_unsigned(v: i32) -> (u: u32)
    ensures
        u == twos_complement(v as int),
{
    assert(v as u32 == if v < 0 {
        v + 0x1_0000_0000
    } else {
        v as int
    }) by (bit_vector);
    v as u32
}

/// The four bytes of an unsigned number.
pub fn u32_bytes(v: u32) -> (b: [u8; 4])
    ensures
        b@ == le_bytes(v as int),
{
    let b: [u8; 4] = [
        (v % 0x100) as u8,
        (v / 0x100 % 0x100) as u8,
        (v / 0x1_0000 % 0x100) as u8,
        (v / 0x100_0000 % 0x100) as u8,
    ];
    assert(b@ =~= le_bytes(v as int));
    b
}

/// The four bytes of a signed number.
pub fn i32_bytes(v: i32) -> (b: [u8; 4])
    ensures
        b@ == le_bytes(twos_complement(v as int)),
{
    u32_bytes(as_unsigned(v))
}

/// The first of four bytes counts once, and every byte counts 256 times as much as if it
/// stood one place earlier.
pub proof fn law_le_value_weighs(a: u8, b: u8, c: u8, d: u8)
    ensures
        le_value(seq![a, 0, 0, 0]) == a,
        le_value(seq![0, b, c, d]) == 0x100 * le_value(seq![b, c, d, 0]),
        le_value(seq![a, b, c, d]) == le_value(seq![a, 0, 0, 0]) + le_value(seq![0, b, c, d]),
{
}

/// A signed number and the one that stands for it in two's complement differ by nothing or
/// by 2^32, and each is made from the other.
pub proof fn law_twos_complement(v: int)
    requires
        -0x8000_0000 <= v < 0x8000_0000,
    ensures
        0 <= twos_complement(v) < 0x1_0000_0000,
        twos_complement(v) % 0x1_0000_0000 == v % 0x1_0000_0000,
        signed32(twos_complement(v)) == v,
{
}

/// The last byte of a big-endian number counts once, and the bytes before it 256 times as
/// much as if they stood alone.
pub proof fn law_be_value_weighs(s: Seq<u8>, b: u8)
    ensures
        be_value(Seq::empty()) == 0,
        be_value(s.push(b)) == 0x100 * be_value(s) + b,
{
    assert(s.push(b).drop_last() =~= s);
}

} // verus!
