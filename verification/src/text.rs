//! Text as bytes: numbers in decimal and hexadecimal, and two buffers of fixed length.

use vstd::prelude::*;

verus! {

/// The character of a digit, which for values over nine is a small letter.
pub open spec fn digit(d: int) -> u8 {
    if d < 10 {
        (0x30 + d) as u8
    } else {
        (0x57 + d) as u8
    }
}

/// A number in decimal, without leading zeros.
pub open spec fn decimal(n: int) -> Seq<u8>
    decreases n,
{
    if n < 10 {
        seq![digit(n)]
    } else {
        decimal(n / 10).push(digit(n % 10))
    }
}

/// A number in decimal, with zeros before it up to `width` characters.
pub open spec fn padded(n: int, width: int) -> Seq<u8> {
    let d = decimal(n);
    if d.len() >= width {
        d
    } else {
        Seq::new((width - d.len()) as nat, |i: int| 0x30u8) + d
    }
}

/// A signed number in decimal.
pub open spec fn signed(v: int) -> Seq<u8> {
    if v < 0 {
        seq![0x2du8] + decimal(-v)
    } else {
        decimal(v)
    }
}

/// A byte as `0x` and two hexadecimal digits.
pub open spec fn hex(v: u8) -> Seq<u8> {
    seq![0x30u8, 0x78u8, digit(v as int / 16), digit(v as int % 16)]
}

/// The bytes of a text.
pub open spec fn utf8(s: Seq<char>) -> Seq<u8> {
    vstd::utf8::encode_utf8(s)
}

/// What of `s` there is room for in `room` bytes.
pub open spec fn fit(s: Seq<u8>, room: int) -> Seq<u8> {
    if s.len() <= room {
        s
    } else {
        s.take(room)
    }
}

/// The text that bytes hold, or none where they hold no text.
pub open spec fn text_of(s: Seq<u8>) -> Seq<char> {
    if vstd::utf8::valid_utf8(s) {
        vstd::utf8::decode_utf8(s)
    } else {
        Seq::empty()
    }
}

/// Cutting off after each part is cutting off once at the end.
pub proof fn lemma_fit_fit(a: Seq<u8>, b: Seq<u8>, room: int)
    requires
        0 <= room,
    ensures
        fit(fit(a, room) + b, room) == fit(a + b, room),
{
    assert(fit(fit(a, room) + b, room) =~= fit(a + b, room));
}

/// A text has no more characters than bytes.
pub proof fn lemma_text_len(s: Seq<u8>)
    ensures
        text_of(s).len() <= s.len(),
    decreases s.len(),
{
    if vstd::utf8::valid_utf8(s) && s.len() > 0 {
        lemma_text_len(vstd::utf8::pop_first_scalar(s));
    }
}

/// The character of a digit.
fn digit_char(d: u8) -> (c: u8)
    requires
        d < 16,
    ensures
        c == digit(d as int),
{
    if d < 10 {
        0x30 + d
    } else {
        0x57 + d
    }
}

/// A number in decimal.
pub fn decimal_bytes(n: u64) -> (v: Vec<u8>)
    ensures
        v@ == decimal(n as int),
        1 <= v@.len() <= 20,
{
    proof {
        lemma_decimal_len(n as int, 20);
    }
    decimal_rec(n)
}

fn decimal_rec(n: u64) -> (v: Vec<u8>)
    ensures
        v@ == decimal(n as int),
    decreases n,
{
    let mut v: Vec<u8> = if n < 10 {
        Vec::new()
    } else {
        decimal_rec(n / 10)
    };
    v.push(digit_char((n % 10) as u8));
    assert(v@ =~= decimal(n as int));
    v
}

/// The power of ten.
spec fn pow10(w: nat) -> int
    decreases w,
{
    if w == 0 {
        1
    } else {
        10 * pow10((w - 1) as nat)
    }
}

proof fn lemma_decimal_len_rec(n: int, w: nat)
    requires
        0 <= n < pow10(w),
        w > 0,
    ensures
        1 <= decimal(n).len() <= w,
    decreases w,
{
    if n >= 10 {
        if w == 1 {
            reveal_with_fuel(pow10, 2);
        } else {
            lemma_decimal_len_rec(n / 10, (w - 1) as nat);
        }
    }
}

/// How long numbers are in decimal.
pub proof fn lemma_decimal_len(n: int, w: nat)
    requires
        0 <= n,
        w == 1 && n < 10 || w == 2 && n < 100 || w == 3 && n < 1000 || w == 5 && n < 100000 || w
            == 10 && n < 10000000000 || w == 20 && n < 100000000000000000000,
    ensures
        1 <= decimal(n).len() <= w,
{
    reveal_with_fuel(pow10, 21);
    lemma_decimal_len_rec(n, w);
}

/// A number in decimal with zeros before it up to `width` characters.
pub fn padded_bytes(n: u64, width: usize) -> (v: Vec<u8>)
    ensures
        v@ == padded(n as int, width as int),
{
    let d: Vec<u8> = decimal_bytes(n);
    if d.len() >= width {
        return d;
    }
    let mut v: Vec<u8> = Vec::new();
    let zeros: usize = width - d.len();
    while v.len() < zeros
        invariant
            v@.len() <= zeros,
            forall|k: int| 0 <= k < v@.len() ==> v@[k] == 0x30,
        decreases zeros - v@.len(),
    {
        v.push(0x30);
    }
    let mut i: usize = 0;
    let ghost z = v@;
    while i < d.len()
        invariant
            i <= d@.len(),
            v@ == z + d@.take(i as int),
        decreases d@.len() - i,
    {
        v.push(d[i]);
        assert(d@.take(i + 1) =~= d@.take(i as int).push(d@[i as int]));
        i += 1;
    }
    assert(v@ =~= padded(n as int, width as int));
    v
}

/// A signed number in decimal.
pub fn signed_bytes(n: i32) -> (v: Vec<u8>)
    ensures
        v@ == signed(n as int),
        1 <= v@.len() <= 21,
{
    if n >= 0 {
        return decimal_bytes(n as u64);
    }
    let d: Vec<u8> = decimal_bytes((-(n as i64)) as u64);
    let mut v: Vec<u8> = Vec::new();
    v.push(0x2d);
    let mut i: usize = 0;
    while i < d.len()
        invariant
            i <= d@.len(),
            v@ == seq![0x2du8] + d@.take(i as int),
        decreases d@.len() - i,
    {
        v.push(d[i]);
        assert(d@.take(i + 1) =~= d@.take(i as int).push(d@[i as int]));
        i += 1;
    }
    assert(v@ =~= signed(n as int));
    v
}

/// A byte as `0x` and two hexadecimal digits.
pub fn hex_bytes(b: u8) -> (v: [u8; 4])
    ensures
        v@ == hex(b),
{
    let v: [u8; 4] = [0x30, 0x78, digit_char(b / 16), digit_char(b % 16)];
    assert(v@ =~= hex(b));
    v
}

/// Calls `core::str::from_utf8`. Believed of it: it gives the text that the bytes are in
/// UTF-8, and fails exactly on bytes that are not valid UTF-8.
#[verifier::external_body]
pub(crate) fn from_utf8<'a>(b: &'a [u8]) -> (r: Option<&'a str>)
    ensures
        match r {
            Some(s) => vstd::utf8::valid_utf8(b@) && s@ == vstd::utf8::decode_utf8(b@),
            None => !vstd::utf8::valid_utf8(b@),
        },
{
    core::str::from_utf8(b).ok()
}

/// A text of at most `N` bytes; what does not fit is cut off.
pub struct FmtBuf<const N: usize> {
    buf: [u8; N],
    len: usize,
    all: Ghost<Seq<u8>>,
}

impl<const N: usize> FmtBuf<N> {
    #[verifier::type_invariant]
    spec fn holds_what_fits(self) -> bool {
        &&& self.len <= N
        &&& self.buf@.take(self.len as int) == fit(self.all@, N as int)
    }
}

impl<const N: usize> View for FmtBuf<N> {
    type V = Seq<u8>;

    /// The bytes written so far, with those that were cut off.
    closed spec fn view(&self) -> Seq<u8> {
        self.all@
    }
}

impl<const N: usize> FmtBuf<N> {
    /// An empty buffer.
    pub fn new() -> (b: Self)
        ensures
            b@ == Seq::<u8>::empty(),
    {
        let buf: [u8; N] = [0; N];
        assert(buf@.take(0) =~= Seq::<u8>::empty());
        FmtBuf { buf, len: 0, all: Ghost(Seq::empty()) }
    }

    /// The text that fits, or nothing where a character was cut in two.
    pub fn as_str<'a>(&'a self) -> (s: &'a str)
        ensures
            s@ == text_of(fit(self@, N as int)),
            s@.len() <= N,
    {
        proof {
            use_type_invariant(self);
            reveal_strlit("");
            lemma_text_len(fit(self@, N as int));
        }
        let b: &[u8] = &self.buf[0..self.len];
        assert(b@ =~= self.buf@.take(self.len as int));
        match from_utf8(b) {
            Some(s) => s,
            None => {
                assert(""@ =~= Seq::<char>::empty());
                ""
            },
        }
    }

    /// Adds bytes, as far as there is room.
    pub fn write_bytes(&mut self, b: &[u8])
        ensures
            final(self)@ == old(self)@ + b@,
    {
        proof {
            use_type_invariant(&*self);
        }
        let ghost all = self@;
        let ghost before = self.buf@.take(self.len as int);
        let mut buf: [u8; N] = self.buf;
        let mut len: usize = self.len;
        let mut i: usize = 0;
        assert(before + b@.take(0) =~= before);
        while i < b.len() && len < N
            invariant
                i <= b@.len(),
                before.len() <= N,
                len == before.len() + i,
                len <= N,
                buf@.take(len as int) == before + b@.take(i as int),
            decreases b@.len() - i,
        {
            let ghost prev = buf@.take(len as int);
            buf[len] = b[i];
            len += 1;
            assert(buf@.take(len as int) =~= prev.push(b@[i as int]));
            assert(b@.take(i + 1) =~= b@.take(i as int).push(b@[i as int]));
            i += 1;
        }
        proof {
            assert(before + b@.take(i as int) =~= fit(before + b@, N as int));
            lemma_fit_fit(all, b@, N as int);
        }
        *self = FmtBuf { buf, len, all: Ghost(all + b@) };
    }

    /// Adds a text, as far as there is room.
    pub fn write_str(&mut self, s: &str)
        ensures
            final(self)@ == old(self)@ + utf8(s@),
    {
        self.write_bytes(s.as_bytes());
    }

    /// Adds a number in decimal.
    pub fn write_decimal(&mut self, n: u64)
        ensures
            final(self)@ == old(self)@ + decimal(n as int),
    {
        let d: Vec<u8> = decimal_bytes(n);
        self.write_bytes(d.as_slice());
    }

    /// Adds a number in decimal with zeros before it.
    pub fn write_padded(&mut self, n: u64, width: usize)
        ensures
            final(self)@ == old(self)@ + padded(n as int, width as int),
    {
        let d: Vec<u8> = padded_bytes(n, width);
        self.write_bytes(d.as_slice());
    }

    /// Adds a signed number in decimal.
    pub fn write_signed(&mut self, n: i32)
        ensures
            final(self)@ == old(self)@ + signed(n as int),
    {
        let d: Vec<u8> = signed_bytes(n);
        self.write_bytes(d.as_slice());
    }
}

/// Capacity of a [`LineBuf`] in bytes.
pub const LINE_CAP: usize = 160;

/// A line of a log file. What does not fit is refused.
pub struct LineBuf {
    buf: [u8; LINE_CAP],
    len: usize,
}

impl LineBuf {
    #[verifier::type_invariant]
    spec fn within(self) -> bool {
        self.len <= LINE_CAP
    }
}

impl View for LineBuf {
    type V = Seq<u8>;

    /// The bytes written so far.
    closed spec fn view(&self) -> Seq<u8> {
        self.buf@.take(self.len as int)
    }
}

impl LineBuf {
    /// An empty line.
    pub fn new() -> (b: Self)
        ensures
            b@ == Seq::<u8>::empty(),
    {
        let b = LineBuf { buf: [0; LINE_CAP], len: 0 };
        assert(b@ =~= Seq::<u8>::empty());
        b
    }

    /// Number of bytes written so far.
    pub fn len(&self) -> (n: usize)
        ensures
            n == self@.len(),
            n <= LINE_CAP,
    {
        proof {
            use_type_invariant(self);
        }
        self.len
    }

    /// The bytes of the line.
    pub fn as_bytes<'a>(&'a self) -> (b: &'a [u8])
        ensures
            b@ == self@,
            b@.len() <= LINE_CAP,
    {
        proof {
            use_type_invariant(self);
        }
        let b: &[u8] = &self.buf[0..self.len];
        assert(b@ =~= self@);
        b
    }

    /// Adds bytes if all of them fit; otherwise leaves the line as it is.
    pub fn write_bytes(&mut self, b: &[u8]) -> (ok: bool)
        ensures
            ok == (old(self)@.len() + b@.len() <= LINE_CAP),
            final(self)@ == if ok {
                old(self)@ + b@
            } else {
                old(self)@
            },
            final(self)@.len() <= LINE_CAP,
    {
        proof {
            use_type_invariant(&*self);
        }
        let ghost before = self@;
        if b.len() > LINE_CAP - self.len {
            return false;
        }
        let start: usize = self.len;
        let mut i: usize = 0;
        while i < b.len()
            invariant
                i <= b@.len(),
                self.len == start + i,
                start + b@.len() <= LINE_CAP,
                self@ == before + b@.take(i as int),
            decreases b@.len() - i,
        {
            let ghost prev = self@;
            self.buf[self.len] = b[i];
            self.len = self.len + 1;
            assert(self@ =~= prev.push(b@[i as int]));
            assert(b@.take(i + 1) =~= b@.take(i as int).push(b@[i as int]));
            i += 1;
        }
        assert(b@.take(i as int) =~= b@);
        true
    }
}

/// Whether a text is a number in decimal: one digit or more, and nothing else.
pub open spec fn is_number(s: Seq<u8>) -> bool {
    &&& s.len() > 0
    &&& forall|i: int| 0 <= i < s.len() ==> 0x30 <= #[trigger] s[i] <= 0x39
}

/// What the digits of a decimal number read as.
pub open spec fn number_read(s: Seq<u8>) -> int
    decreases s.len(),
{
    if s.len() == 0 {
        0
    } else {
        10 * number_read(s.drop_last()) + (s.last() - 0x30)
    }
}

/// Whether a text is a number in decimal, with or without a minus sign.
pub open spec fn is_signed_number(s: Seq<u8>) -> bool {
    s.len() > 0 && is_number(
        if s[0] == 0x2d {
            s.skip(1)
        } else {
            s
        },
    )
}

/// What a decimal number reads as, the minus sign counted.
pub open spec fn signed_read(s: Seq<u8>) -> int {
    if s.len() > 0 && s[0] == 0x2d {
        -number_read(s.skip(1))
    } else {
        number_read(s)
    }
}

/// What a hexadecimal digit with small letters stands for; -1 for any other byte.
pub open spec fn hex_digit_read(b: u8) -> int {
    if 0x30 <= b <= 0x39 {
        b - 0x30
    } else if 0x61 <= b <= 0x66 {
        b - 0x61 + 10
    } else {
        -1
    }
}

/// The parts of a text between the places where `sep` stands.
pub open spec fn parts(s: Seq<u8>, sep: u8) -> Seq<Seq<u8>>
    decreases s.len(),
{
    if s.len() == 0 {
        seq![Seq::<u8>::empty()]
    } else {
        let p = parts(s.drop_last(), sep);
        if s.last() == sep {
            p.push(Seq::<u8>::empty())
        } else {
            p.drop_last().push(p.last().push(s.last()))
        }
    }
}

/// A number written in decimal reads back as itself, and has no zero in front of it.
pub proof fn law_decimal_reads_back(n: int)
    requires
        0 <= n,
    ensures
        is_number(decimal(n)),
        number_read(decimal(n)) == n,
        n >= 10 ==> decimal(n)[0] != 0x30,
        n < 10 ==> decimal(n).len() == 1,
    decreases n,
{
    let d = decimal(n);
    if n < 10 {
        assert(d.drop_last() =~= Seq::<u8>::empty());
        assert(number_read(d.drop_last()) == 0);
    } else {
        law_decimal_reads_back(n / 10);
        assert(d.drop_last() =~= decimal(n / 10));
        assert(d[0] == decimal(n / 10)[0]);
        if n / 10 < 10 {
            assert(decimal(n / 10)[0] == digit(n / 10));
        }
    }
}

/// Zeros in front of a number do not change what it reads as.
proof fn lemma_zeros_read(k: nat, d: Seq<u8>)
    ensures
        number_read(Seq::new(k, |i: int| 0x30u8) + d) == number_read(d),
    decreases k + d.len(),
{
    let z = Seq::new(k, |i: int| 0x30u8);
    if d.len() > 0 {
        lemma_zeros_read(k, d.drop_last());
        assert((z + d).drop_last() =~= z + d.drop_last());
        assert((z + d).last() == d.last());
    } else if k > 0 {
        let y = Seq::new((k - 1) as nat, |i: int| 0x30u8);
        lemma_zeros_read((k - 1) as nat, d);
        assert((z + d).drop_last() =~= y + d);
        assert((z + d).last() == 0x30);
    } else {
        assert(z + d =~= d);
    }
}

/// A number written with zeros in front of it reads back as itself; it is at least as
/// long as asked, and longer only where its own digits are.
pub proof fn law_padded_reads_back(n: int, width: int)
    requires
        0 <= n,
    ensures
        is_number(padded(n, width)),
        number_read(padded(n, width)) == n,
        padded(n, width).len() >= width,
        padded(n, width).len() > width ==> padded(n, width) == decimal(n),
{
    let d = decimal(n);
    law_decimal_reads_back(n);
    if d.len() < width {
        lemma_zeros_read((width - d.len()) as nat, d);
    }
}

/// A signed number reads back as itself; a minus sign stands only before negative ones.
pub proof fn law_signed_reads_back(v: int)
    ensures
        is_signed_number(signed(v)),
        signed_read(signed(v)) == v,
        v < 0 <==> signed(v)[0] == 0x2d,
{
    if v < 0 {
        law_decimal_reads_back(-v);
        assert(signed(v).skip(1) =~= decimal(-v));
    } else {
        law_decimal_reads_back(v);
        assert(0x30 <= decimal(v)[0] <= 0x39);
    }
}

/// A byte in hexadecimal is `0x` and two digits that read back as the byte.
pub proof fn law_hex_reads_back(b: u8)
    ensures
        hex(b).len() == 4,
        hex(b)[0] == 0x30 && hex(b)[1] == 0x78,
        0 <= hex_digit_read(hex(b)[2]) && 0 <= hex_digit_read(hex(b)[3]),
        16 * hex_digit_read(hex(b)[2]) + hex_digit_read(hex(b)[3]) == b,
{
}

/// What is kept of a text that has to fit is its beginning, and as much of it as fits.
pub proof fn law_fit_keeps_the_beginning(s: Seq<u8>, room: int)
    requires
        0 <= room,
    ensures
        fit(s, room).is_prefix_of(s),
        fit(s, room).len() <= room,
        fit(s, room).len() < room ==> fit(s, room) == s,
{
    assert(fit(s, room) =~= s.subrange(0, fit(s, room).len() as int));
}

/// A text without the separator is one part, and one more part after a separator is added
/// at the end.
pub proof fn lemma_parts(s: Seq<u8>, p: Seq<u8>, sep: u8)
    requires
        !p.contains(sep),
    ensures
        parts(p, sep) == seq![p],
        parts(s + seq![sep] + p, sep) == parts(s, sep).push(p),
        parts(s, sep).len() > 0,
    decreases p.len(),
{
    let t = s + seq![sep] + p;
    if p.len() == 0 {
        assert(p =~= Seq::<u8>::empty());
        assert(t.drop_last() =~= s);
        assert(t.last() == sep);
        lemma_parts_some(s, sep);
    } else {
        let q = p.drop_last();
        assert(p.last() != sep) by {
            assert(p[p.len() - 1] == p.last());
        }
        assert(!q.contains(sep)) by {
            if q.contains(sep) {
                let i = choose|i: int| 0 <= i < q.len() && q[i] == sep;
                assert(p[i] == sep);
            }
        }
        lemma_parts(s, q, sep);
        assert(q.push(p.last()) =~= p);
        assert(t.drop_last() =~= s + seq![sep] + q);
        assert(parts(p, sep) =~= seq![p]);
        assert(parts(s, sep).push(q).drop_last() =~= parts(s, sep));
        assert(parts(t, sep) =~= parts(s, sep).push(p));
    }
}

proof fn lemma_parts_some(s: Seq<u8>, sep: u8)
    ensures
        parts(s, sep).len() > 0,
    decreases s.len(),
{
    if s.len() > 0 {
        lemma_parts_some(s.drop_last(), sep);
    }
}

/// A number has no byte in it that is not a digit.
pub proof fn lemma_number_is_digits(s: Seq<u8>, b: u8)
    requires
        is_number(s),
        b < 0x30 || b > 0x39,
    ensures
        !s.contains(b),
{
}

/// A text is read back from its bytes, and nothing is read from bytes that hold no text.
pub proof fn law_text_comes_back(s: Seq<char>, b: Seq<u8>)
    ensures
        text_of(utf8(s)) == s,
        !vstd::utf8::valid_utf8(b) ==> text_of(b).len() == 0,
        vstd::utf8::valid_utf8(b) ==> utf8(text_of(b)) == b,
{
    vstd::utf8::encode_utf8_valid_utf8(s);
    vstd::utf8::encode_utf8_decode_utf8(s);
    if vstd::utf8::valid_utf8(b) {
        vstd::utf8::decode_utf8_encode_utf8(b);
    }
}

} // verus!
