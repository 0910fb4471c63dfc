//! The part of the protobuf wire format that positions use.
//!
//! Everything here speaks of what is left to read: each step takes a byte string and
//! gives a value and the bytes after it.

use vstd::prelude::*;

use crate::bytes;
use crate::mesh::DecodeError;

verus! {

/// Wire type of a base-128 number.
pub const WIRE_VARINT: u8 = 0;

/// Wire type of eight fixed bytes.
pub const WIRE_I64: u8 = 1;

/// Wire type of bytes with their length before them.
pub const WIRE_LEN: u8 = 2;

/// Wire type of four fixed bytes.
pub const WIRE_I32: u8 = 5;

/// Length of the number that `s` starts with: up to its first byte under 128, which
/// must be among the first `limit` bytes.
pub open spec fn varint_len(s: Seq<u8>, limit: nat) -> Option<nat>
    decreases limit,
{
    if limit == 0 || s.len() == 0 {
        None
    } else if s[0] < 0x80 {
        Some(1)
    } else {
        match varint_len(s.skip(1), (limit - 1) as nat) {
            None => None,
            Some(n) => Some(n + 1),
        }
    }
}

/// The number made of the low seven bits of each byte, least significant byte first.
pub open spec fn groups_value(s: Seq<u8>) -> int
    decreases s.len(),
{
    if s.len() == 0 {
        0
    } else {
        s[0] % 0x80 + 0x80 * groups_value(s.skip(1))
    }
}

/// The number that `s` starts with and the bytes after it. At most ten bytes make a
/// number, of which 64 bits are kept.
pub open spec fn varint(s: Seq<u8>) -> Option<(int, Seq<u8>)> {
    match varint_len(s, 10) {
        None => None,
        Some(n) => Some(
            (groups_value(s.take(n as int)) % 0x1_0000_0000_0000_0000, s.skip(n as int)),
        ),
    }
}

/// The field number, the wire type and the bytes after them. Of the field number 32
/// bits are kept.
pub open spec fn tag(s: Seq<u8>) -> Option<(int, int, Seq<u8>)> {
    match varint(s) {
        None => None,
        Some((key, rest)) => Some((key / 8 % 0x1_0000_0000, key % 8, rest)),
    }
}

/// The first `n` bytes and the bytes after them.
pub open spec fn fixed(s: Seq<u8>, n: int) -> Option<(Seq<u8>, Seq<u8>)> {
    if s.len() < n {
        None
    } else {
        Some((s.take(n), s.skip(n)))
    }
}

/// Bytes with their length before them, and the bytes after them. Of the length a
/// machine word is kept.
pub open spec fn delimited(s: Seq<u8>) -> Option<(Seq<u8>, Seq<u8>)> {
    match varint(s) {
        None => None,
        Some((len, rest)) => fixed(rest, len % (usize::MAX + 1)),
    }
}

/// A field's value as a signed 32-bit number, and the bytes after it.
pub open spec fn i32_field(s: Seq<u8>, wire: int) -> Result<(int, Seq<u8>), DecodeError> {
    if wire == WIRE_I32 {
        match fixed(s, 4) {
            None => Err(DecodeError::Truncated),
            Some((b, rest)) => Ok((bytes::signed32(bytes::le_value(b)), rest)),
        }
    } else if wire == WIRE_VARINT {
        match varint(s) {
            None => Err(DecodeError::Truncated),
            Some((v, rest)) => Ok((bytes::signed32(v % 0x1_0000_0000), rest)),
        }
    } else {
        Err(DecodeError::BadWireType(wire as u8))
    }
}

/// The bytes after a field of which nothing is used.
pub open spec fn skipped(s: Seq<u8>, wire: int) -> Result<Seq<u8>, DecodeError> {
    let after = if wire == WIRE_VARINT {
        match varint(s) {
            None => None,
            Some((_, rest)) => Some(rest),
        }
    } else if wire == WIRE_LEN {
        match delimited(s) {
            None => None,
            Some((_, rest)) => Some(rest),
        }
    } else {
        match fixed(s, if wire == WIRE_I64 { 8 } else { 4 }) {
            None => None,
            Some((_, rest)) => Some(rest),
        }
    };
    if wire != WIRE_VARINT && wire != WIRE_I64 && wire != WIRE_LEN && wire != WIRE_I32 {
        Err(DecodeError::BadWireType(wire as u8))
    } else {
        match after {
            None => Err(DecodeError::Truncated),
            Some(rest) => Ok(rest),
        }
    }
}

/// A number takes at least one byte, and no more than there are.
proof fn lemma_varint_len(s: Seq<u8>, limit: nat)
    ensures
        varint_len(s, limit) matches Some(n) ==> 1 <= n <= limit && n <= s.len(),
    decreases limit,
{
    if limit > 0 && s.len() > 0 && s[0] >= 0x80 {
        lemma_varint_len(s.skip(1), (limit - 1) as nat);
    }
}

/// A tag takes at least one byte.
pub proof fn lemma_tag_shortens(s: Seq<u8>)
    ensures
        tag(s) is Some ==> tag(s)->Some_0.2.len() < s.len(),
{
    lemma_varint_len(s, 10);
}

/// No step makes what is left to read longer.
pub proof fn lemma_steps_shorten(s: Seq<u8>, wire: int)
    ensures
        varint(s) is Some ==> varint(s)->Some_0.1.len() < s.len(),
        delimited(s) is Some ==> delimited(s)->Some_0.1.len() < s.len(),
        i32_field(s, wire) is Ok ==> i32_field(s, wire)->Ok_0.1.len() < s.len(),
        skipped(s, wire) is Ok ==> skipped(s, wire)->Ok_0.len() < s.len(),
{
    lemma_varint_len(s, 10);
}

/// A byte string with a place up to which it was read.
pub(crate) struct Reader<'a> {
    buf: &'a [u8],
    pos: usize,
}

impl<'a> Reader<'a> {
    #[verifier::type_invariant]
    spec fn within(self) -> bool {
        self.pos <= self.buf@.len()
    }
}

impl<'a> View for Reader<'a> {
    type V = Seq<u8>;

    /// What is left to read.
    closed spec fn view(&self) -> Seq<u8> {
        self.buf@.skip(self.pos as int)
    }
}

/// What one byte adds to a number of `n` bytes.
spec fn weight(n: nat) -> int
    decreases n,
{
    if n == 0 {
        1
    } else {
        0x80 * weight((n - 1) as nat)
    }
}

proof fn lemma_groups_push(s: Seq<u8>, b: u8)
    ensures
        groups_value(s.push(b)) == groups_value(s) + b % 0x80 * weight(s.len()),
    decreases s.len(),
{
    let t = s.push(b);
    if s.len() == 0 {
        assert(t.skip(1) =~= Seq::empty());
        reveal_with_fuel(groups_value, 2);
    } else {
        let u = s.skip(1);
        lemma_groups_push(u, b);
        assert(t.skip(1) =~= u.push(b));
        let w = weight(u.len());
        let g = (b % 0x80) as int;
        assert(0x80 * (g * w) == g * (0x80 * w)) by (nonlinear_arith);
    }
}

/// Where the first `n` bytes go on, the number ends with the next byte that does not.
proof fn lemma_varint_runs(s: Seq<u8>, n: nat, limit: nat)
    requires
        n <= limit,
        n <= s.len(),
        forall|k: int| 0 <= k < n ==> s[k] >= 0x80,
    ensures
        n == limit || n == s.len() ==> varint_len(s, limit) is None,
        n < limit && n < s.len() && s[n as int] < 0x80 ==> varint_len(s, limit) == Some(
            (n + 1) as nat,
        ),
    decreases n,
{
    if n > 0 {
        let t = s.skip(1);
        assert(forall|k: int| 0 <= k < n - 1 ==> t[k] == s[k + 1]);
        lemma_varint_runs(t, (n - 1) as nat, (limit - 1) as nat);
        assert(n < s.len() ==> t[n - 1] == s[n as int]);
    }
}

impl<'a> Reader<'a> {
    /// A reader at the start of `buf`.
    pub(crate) fn new(buf: &'a [u8]) -> (r: Self)
        ensures
            r@ == buf@,
    {
        let r = Self { buf, pos: 0 };
        assert(r@ =~= buf@);
        r
    }

    /// Whether everything was read.
    pub(crate) fn at_end(&self) -> (yes: bool)
        ensures
            yes == (self@.len() == 0),
    {
        proof {
            use_type_invariant(self);
        }
        self.pos >= self.buf.len()
    }

    /// Reads a base-128 number.
    pub(crate) fn varint(&mut self) -> (r: Result<u64, DecodeError>)
        ensures
            match (varint(old(self)@), r) {
                (Some((v, rest)), Ok(x)) => x == v && final(self)@ == rest,
                (None, Err(e)) => e == DecodeError::Truncated,
                _ => false,
            },
    {
        proof {
            use_type_invariant(&*self);
        }
        let ghost s = self@;
        let buf: &'a [u8] = self.buf;
        let start: usize = self.pos;
        let mut n: usize = 0;
        let mut value: u128 = 0;
        let mut scale: u128 = 1;
        assert(s.take(0) =~= Seq::empty());
        while n < 10
            invariant
                n <= 10,
                start <= buf@.len(),
                s == buf@.skip(start as int),
                n <= s.len(),
                forall|k: int| 0 <= k < n ==> s[k] >= 0x80,
                value == groups_value(s.take(n as int)),
                scale == weight(n as nat),
                value < scale,
                scale <= 0x40_0000_0000_0000_0000,
                n < 10 ==> scale <= 0x8000_0000_0000_0000,
                self.buf == buf,
                s == old(self)@,
            decreases 10 - n,
        {
            if n >= buf.len() - start {
                proof {
                    lemma_varint_runs(s, n as nat, 10);
                }
                return Err(DecodeError::Truncated);
            }
            let b: u8 = buf[start + n];
            let group: u128 = (b % 0x80) as u128;
            proof {
                let g = group as int;
                let w = scale as int;
                assert(0 <= g * w <= 127 * w) by (nonlinear_arith)
                    requires
                        0 <= g <= 127,
                        0 <= w,
                ;
                assert(s[n as int] == b);
                assert(s.take(n + 1) =~= s.take(n as int).push(b));
                lemma_groups_push(s.take(n as int), b);
            }
            value = value + group * scale;
            if b < 0x80 {
                proof {
                    lemma_varint_runs(s, n as nat, 10);
                    assert(buf@.skip(start + n + 1) =~= s.skip(n + 1));
                }
                self.pos = start + n + 1;
                return Ok((value % 0x1_0000_0000_0000_0000) as u64);
            }
            n += 1;
            proof {
                lemma_weights();
            }
            scale = scale * 0x80;
        }
        proof {
            lemma_varint_runs(s, 10, 10);
        }
        Err(DecodeError::Truncated)
    }

    /// Reads the field number and the wire type of the next field.
    pub(crate) fn tag(&mut self) -> (r: Result<(u32, u8), DecodeError>)
        ensures
            match (tag(old(self)@), r) {
                (Some((field, wire, rest)), Ok((f, w))) => f == field && w == wire && final(self)@
                    == rest,
                (None, Err(e)) => e == DecodeError::Truncated,
                _ => false,
            },
    {
        match self.varint() {
            Ok(key) => Ok(((key / 8 % 0x1_0000_0000) as u32, (key % 8) as u8)),
            Err(e) => Err(e),
        }
    }

    /// Reads `n` bytes.
    fn fixed(&mut self, n: usize) -> (r: Result<&'a [u8], DecodeError>)
        ensures
            match (fixed(old(self)@, n as int), r) {
                (Some((b, rest)), Ok(x)) => x@ == b && final(self)@ == rest,
                (None, Err(e)) => e == DecodeError::Truncated,
                _ => false,
            },
    {
        proof {
            use_type_invariant(&*self);
        }
        let buf: &'a [u8] = self.buf;
        let start: usize = self.pos;
        if buf.len() - start < n {
            return Err(DecodeError::Truncated);
        }
        let ghost s = self@;
        let b: &'a [u8] = &buf[start..start + n];
        self.pos = start + n;
        assert(b@ =~= s.take(n as int));
        assert(self@ =~= s.skip(n as int));
        Ok(b)
    }

    /// Reads bytes with their length before them.
    pub(crate) fn delimited(&mut self) -> (r: Result<&'a [u8], DecodeError>)
        ensures
            match (delimited(old(self)@), r) {
                (Some((b, rest)), Ok(x)) => x@ == b && final(self)@ == rest,
                (None, Err(e)) => e == DecodeError::Truncated,
                _ => false,
            },
    {
        match self.varint() {
            Ok(len) => self.fixed((len as u128 % (usize::MAX as u128 + 1)) as usize),
            Err(e) => Err(e),
        }
    }

    /// Reads a field's value as a signed 32-bit number.
    pub(crate) fn i32_field(&mut self, wire: u8) -> (r: Result<i32, DecodeError>)
        ensures
            match (i32_field(old(self)@, wire as int), r) {
                (Ok((v, rest)), Ok(x)) => x == v && final(self)@ == rest,
                (Err(e), Err(d)) => d == e,
                _ => false,
            },
            r matches Err(DecodeError::BadWireType(_)) ==> final(self)@ == old(self)@,
    {
        if wire == WIRE_I32 {
            match self.fixed(4) {
                Ok(b) => {
                    assert(b@.subrange(0, 4) =~= b@);
                    Ok(bytes::read_i32(b, 0))
                },
                Err(e) => Err(e),
            }
        } else if wire == WIRE_VARINT {
            match self.varint() {
                Ok(v) => Ok(bytes::as_signed((v % 0x1_0000_0000) as u32)),
                Err(e) => Err(e),
            }
        } else {
            Err(DecodeError::BadWireType(wire))
        }
    }

    /// Passes over a field.
    pub(crate) fn skip_field(&mut self, wire: u8) -> (r: Result<(), DecodeError>)
        ensures
            match (skipped(old(self)@, wire as int), r) {
                (Ok(rest), Ok(_)) => final(self)@ == rest,
                (Err(e), Err(d)) => d == e,
                _ => false,
            },
            r matches Err(DecodeError::BadWireType(_)) ==> final(self)@ == old(self)@,
    {
        if wire == WIRE_VARINT {
            match self.varint() {
                Ok(_) => Ok(()),
                Err(e) => Err(e),
            }
        } else if wire == WIRE_LEN {
            match self.delimited() {
                Ok(_) => Ok(()),
                Err(e) => Err(e),
            }
        } else if wire == WIRE_I64 || wire == WIRE_I32 {
            match self.fixed(if wire == WIRE_I64 { 8 } else { 4 }) {
                Ok(_) => Ok(()),
                Err(e) => Err(e),
            }
        } else {
            Err(DecodeError::BadWireType(wire))
        }
    }
}

proof fn lemma_weights()
    ensures
        weight(9) == 0x8000_0000_0000_0000,
        forall|n: nat| #![trigger weight(n)] n > 0 ==> weight(n) == 0x80 * weight((n - 1) as nat),
{
    reveal_with_fuel(weight, 10);
}

/// The shortest bytes that make the number `v`.
pub open spec fn varint_bytes(v: int) -> Seq<u8>
    decreases v,
{
    if v < 0x80 {
        seq![v as u8]
    } else {
        seq![(0x80 + v % 0x80) as u8] + varint_bytes(v / 0x80)
    }
}

/// The bytes that a field starts with.
pub open spec fn tag_bytes(field: int, wire: int) -> Seq<u8> {
    varint_bytes(8 * field + wire)
}

/// A field of four fixed bytes.
pub open spec fn fixed32_field(field: int, v: int) -> Seq<u8> {
    tag_bytes(field, WIRE_I32 as int) + bytes::le_bytes(bytes::twos_complement(v))
}

/// A field of eight fixed bytes.
pub open spec fn fixed64_field(field: int, b: Seq<u8>) -> Seq<u8> {
    tag_bytes(field, WIRE_I64 as int) + b
}

/// A field of a base-128 number.
pub open spec fn varint_field(field: int, v: int) -> Seq<u8> {
    tag_bytes(field, WIRE_VARINT as int) + varint_bytes(v)
}

/// A field of bytes.
pub open spec fn delimited_field(field: int, b: Seq<u8>) -> Seq<u8> {
    tag_bytes(field, WIRE_LEN as int) + varint_bytes(b.len() as int) + b
}

/// The 64-bit number that stands for `v` in two's complement, as base-128 fields hold
/// signed numbers.
pub open spec fn sign_extended(v: int) -> int {
    if v < 0 {
        v + 0x1_0000_0000_0000_0000
    } else {
        v
    }
}

proof fn lemma_varint_bytes(v: int, rest: Seq<u8>, limit: nat)
    requires
        0 <= v < weight(limit),
        limit > 0,
    ensures
        varint_len(varint_bytes(v) + rest, limit) == Some(varint_bytes(v).len()),
        groups_value(varint_bytes(v)) == v,
        varint_bytes(v).len() <= limit,
    decreases limit,
{
    let b = varint_bytes(v);
    let s = b + rest;
    if v < 0x80 {
        assert(b.skip(1) =~= Seq::empty());
        reveal_with_fuel(groups_value, 2);
    } else {
        lemma_weights();
        assert(limit > 1) by {
            reveal_with_fuel(weight, 2);
        }
        assert(v / 0x80 < weight((limit - 1) as nat));
        lemma_varint_bytes(v / 0x80, rest, (limit - 1) as nat);
        assert(s.skip(1) =~= varint_bytes(v / 0x80) + rest);
        assert(b.skip(1) =~= varint_bytes(v / 0x80));
    }
}

/// Every 64-bit number is read back as it was written, whatever follows it.
pub proof fn law_varint_of_bytes(v: int, rest: Seq<u8>)
    requires
        0 <= v < 0x1_0000_0000_0000_0000,
    ensures
        varint(varint_bytes(v) + rest) == Some((v, rest)),
        1 <= varint_bytes(v).len() <= 10,
{
    lemma_weights();
    assert(weight(10) == 0x80 * weight(9));
    lemma_varint_bytes(v, rest, 10);
    let s = varint_bytes(v) + rest;
    let n = varint_bytes(v).len() as int;
    assert(s.take(n) =~= varint_bytes(v));
    assert(s.skip(n) =~= rest);
}

/// Every field number of 29 bits and every wire type are read back as they were written.
pub proof fn law_tag_of_bytes(field: int, wire: int, rest: Seq<u8>)
    requires
        0 <= field < 0x2000_0000,
        0 <= wire < 8,
    ensures
        tag(tag_bytes(field, wire) + rest) == Some((field, wire, rest)),
{
    law_varint_of_bytes(8 * field + wire, rest);
}

/// A signed number is read back as it was written in four fixed bytes.
pub proof fn law_fixed32_of_bytes(v: int, rest: Seq<u8>)
    requires
        -0x8000_0000 <= v < 0x8000_0000,
    ensures
        i32_field(bytes::le_bytes(bytes::twos_complement(v)) + rest, WIRE_I32 as int) == Ok::<
            (int, Seq<u8>),
            DecodeError,
        >((v, rest)),
{
    let b = bytes::le_bytes(bytes::twos_complement(v));
    bytes::law_le_value_of_bytes(bytes::twos_complement(v));
    assert((b + rest).take(4) =~= b);
    assert((b + rest).skip(4) =~= rest);
}

/// A signed number is read back as it was written in base 128.
pub proof fn law_signed_varint_of_bytes(v: int, rest: Seq<u8>)
    requires
        -0x8000_0000 <= v < 0x8000_0000,
    ensures
        i32_field(varint_bytes(sign_extended(v)) + rest, WIRE_VARINT as int) == Ok::<
            (int, Seq<u8>),
            DecodeError,
        >((v, rest)),
{
    law_varint_of_bytes(sign_extended(v), rest);
}

/// Bytes are read back as they were written with their length.
pub proof fn law_delimited_of_bytes(b: Seq<u8>, rest: Seq<u8>)
    requires
        b.len() <= usize::MAX,
    ensures
        delimited(varint_bytes(b.len() as int) + b + rest) == Some((b, rest)),
{
    law_varint_of_bytes(b.len() as int, b + rest);
    vstd::arithmetic::div_mod::lemma_small_mod(b.len(), (usize::MAX + 1) as nat);
    assert(varint_bytes(b.len() as int) + b + rest =~= varint_bytes(b.len() as int) + (b + rest));
    assert((b + rest).take(b.len() as int) =~= b);
    assert((b + rest).skip(b.len() as int) =~= rest);
}

/// A number ends with its first byte under 128.
proof fn lemma_varint_ends(s: Seq<u8>, n: nat, limit: nat)
    requires
        1 <= n <= s.len(),
        forall|i: int| 0 <= i < n - 1 ==> #[trigger] s[i] >= 0x80,
        s[n - 1] < 0x80,
    ensures
        varint_len(s, limit) == (if n <= limit {
            Some(n)
        } else {
            None::<nat>
        }),
    decreases limit,
{
    if limit > 0 && n > 1 {
        assert forall|i: int| 0 <= i < n - 2 implies #[trigger] s.skip(1)[i] >= 0x80 by {
            assert(s.skip(1)[i] == s[i + 1]);
        }
        lemma_varint_ends(s.skip(1), (n - 1) as nat, (limit - 1) as nat);
    }
}

/// A number in base 128 ends with its first byte under 128, and takes ten bytes at most:
/// what follows is left to be read, and a longer one is none.
pub proof fn law_varint_ends(s: Seq<u8>, n: nat)
    requires
        1 <= n <= s.len(),
        forall|i: int| 0 <= i < n - 1 ==> #[trigger] s[i] >= 0x80,
        s[n - 1] < 0x80,
    ensures
        n <= 10 ==> varint(s) is Some && varint(s)->Some_0.1 == s.skip(n as int),
        n > 10 ==> varint(s) is None,
{
    lemma_varint_ends(s, n, 10);
}

/// Bytes that end before a number does hold none.
pub proof fn law_varint_runs_out(s: Seq<u8>)
    requires
        forall|i: int| 0 <= i < s.len() ==> #[trigger] s[i] >= 0x80,
    ensures
        varint(s) is None,
{
    lemma_varint_runs_out(s, 10);
}

proof fn lemma_varint_runs_out(s: Seq<u8>, limit: nat)
    requires
        forall|i: int| 0 <= i < s.len() ==> #[trigger] s[i] >= 0x80,
    ensures
        varint_len(s, limit) is None,
    decreases limit,
{
    if limit > 0 && s.len() > 0 {
        assert forall|i: int| 0 <= i < s.skip(1).len() implies #[trigger] s.skip(1)[i] >= 0x80 by {
            assert(s.skip(1)[i] == s[i + 1]);
        }
        lemma_varint_runs_out(s.skip(1), (limit - 1) as nat);
    }
}

proof fn lemma_varint_limit(s: Seq<u8>, limit: nat, other: nat)
    requires
        varint_len(s, limit) is Some,
        varint_len(s, limit)->Some_0 <= other,
    ensures
        varint_len(s, other) == varint_len(s, limit),
        1 <= varint_len(s, limit)->Some_0 <= s.len(),
    decreases limit,
{
    if s[0] >= 0x80 {
        lemma_varint_limit(s.skip(1), (limit - 1) as nat, (other - 1) as nat);
    }
}

/// A byte under 128 is a number by itself. A byte from 128 on adds its seven low bits to 128
/// times the number that follows it, of which 64 bits are kept.
pub proof fn law_varint_goes_by_sevens(b: u8, s: Seq<u8>)
    ensures
        b < 0x80 ==> varint(seq![b] + s) == Some((b as int, s)),
        b >= 0x80 ==> match varint(s) {
            Some((w, rest)) => s.len() - rest.len() < 10 ==> varint(seq![b] + s) == Some(
                ((b - 0x80 + 0x80 * w) % 0x1_0000_0000_0000_0000, rest),
            ),
            None => varint(seq![b] + s) is None,
        },
{
    let t = seq![b] + s;
    assert(t.skip(1) =~= s);
    if b < 0x80 {
        assert(t.take(1) =~= seq![b]);
        assert(seq![b].skip(1) =~= Seq::<u8>::empty());
        reveal_with_fuel(groups_value, 2);
        assert(groups_value(seq![b]) == b);
    } else if varint(s) is Some {
        let n = varint_len(s, 10)->Some_0;
        if n < 10 {
            lemma_varint_limit(s, 10, 9);
            assert(varint_len(t, 10) == Some(n + 1));
            assert(t.take(n as int + 1).skip(1) =~= s.take(n as int));
            assert(t.skip(n as int + 1) =~= s.skip(n as int));
            let m: int = 0x1_0000_0000_0000_0000;
            let g = groups_value(s.take(n as int));
            let c = b - 0x80;
            assert(groups_value(t.take(n as int + 1)) == c + 0x80 * g);
            let q = g / m;
            let w = g % m;
            assert(c + 0x80 * g == m * (0x80 * q) + (c + 0x80 * w));
            vstd::arithmetic::div_mod::lemma_mod_multiples_vanish(0x80 * q, c + 0x80 * w, m);
        } else {
            lemma_varint_limit(s, 10, n);
            assert(varint(s)->Some_0.1.len() == s.len() - n);
        }
    } else if varint_len(s, 9) is Some {
        lemma_varint_len(s, 9);
        lemma_varint_limit(s, 9, 10);
    }
}

} // verus!
