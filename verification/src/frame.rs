//! The sixteen-byte minute report of the beacon.
//!
//! Layout, little-endian: `version | flags | seq | lat_e7 (4) | lon_e7 (4) |
//! time_unix (4) | crc8`. The beacon and the receiver share it byte for byte.

use vstd::prelude::*;

use crate::bytes;
use crate::nav::GeoPoint;

verus! {

/// Length of a frame in bytes.
pub const FRAME_LEN: usize = 16;

/// Version of the protocol that this crate speaks.
pub const PROTOCOL_VERSION: u8 = 1;

/// Flag: the frame holds a valid GPS fix.
pub const FLAG_FIX_VALID: u8 = 0x01;

/// Why bytes were not accepted as a frame.
#[derive(Debug, Clone, Copy, PartialEq, Eq, Structural)]
pub enum FrameError {
    /// Fewer than [`FRAME_LEN`] bytes.
    TooShort,
    /// The checksum does not match.
    BadCrc,
    /// The frame is of a version that this crate does not know.
    BadVersion(u8),
}

/// One minute report: a position and its time.
#[derive(Debug, Clone, Copy, PartialEq, Eq, Structural)]
pub struct NostosFrame {
    /// Version of the protocol.
    pub version: u8,
    /// Flags, such as [`FLAG_FIX_VALID`].
    pub flags: u8,
    /// Running number, to notice lost frames; it wraps at eight bits.
    pub seq: u8,
    /// Latitude in degrees times 10^7.
    pub lat_e7: i32,
    /// Longitude in degrees times 10^7.
    pub lon_e7: i32,
    /// Time of the fix in Unix seconds (UTC); 0 where it is not known.
    pub time_unix: u32,
}

/// One step of the shift register with the polynomial `x^8 + x^2 + x + 1`.
pub open spec fn crc_shift(c: u8) -> u8 {
    if c & 0x80 != 0 {
        (c << 1) ^ 0x07
    } else {
        c << 1
    }
}

/// The register after eight shifts.
pub open spec fn crc_byte(c: u8) -> u8 {
    crc_shift(
        crc_shift(crc_shift(crc_shift(crc_shift(crc_shift(crc_shift(crc_shift(c))))))),
    )
}

/// The CRC-8 of `s`: each byte in turn is added to the register, which then shifts
/// eight times. The register starts at zero.
pub open spec fn crc8_of(s: Seq<u8>) -> u8
    decreases s.len(),
{
    if s.len() == 0 {
        0
    } else {
        crc_byte(crc8_of(s.drop_last()) ^ s.last())
    }
}

/// The register after `n` more shifts.
spec fn crc_left(c: u8, n: nat) -> u8
    decreases n,
{
    if n == 0 {
        c
    } else {
        crc_left(crc_shift(c), (n - 1) as nat)
    }
}

/// CRC-8 with the polynomial `0x07` and the initial value `0x00`.
pub fn crc8(data: &[u8]) -> (crc: u8)
    ensures
        crc == crc8_of(data@),
{
    let mut crc: u8 = 0;
    let mut n: usize = 0;
    assert(data@.take(0) =~= Seq::empty());
    while n < data.len()
        invariant
            n <= data@.len(),
            crc == crc8_of(data@.take(n as int)),
        decreases data@.len() - n,
    {
        let ghost before = crc ^ data[n as int];
        crc = crc ^ data[n];
        let mut i: u32 = 0;
        proof {
            reveal_with_fuel(crc_left, 9);
        }
        while i < 8
            invariant
                i <= 8,
                crc_byte(before) == crc_left(crc, (8 - i) as nat),
            decreases 8 - i,
        {
            crc = if crc & 0x80 != 0 {
                (crc << 1) ^ 0x07
            } else {
                crc << 1
            };
            i += 1;
        }
        assert(data@.take(n + 1).drop_last() =~= data@.take(n as int));
        n += 1;
    }
    assert(data@.take(n as int) =~= data@);
    crc
}

/// The fifteen bytes of a frame that the checksum covers.
pub open spec fn frame_body(f: NostosFrame) -> Seq<u8> {
    seq![f.version, f.flags, f.seq] + bytes::le_bytes(bytes::twos_complement(f.lat_e7 as int))
        + bytes::le_bytes(bytes::twos_complement(f.lon_e7 as int)) + bytes::le_bytes(
        f.time_unix as int,
    )
}

/// The sixteen bytes of a frame.
pub open spec fn frame_bytes(f: NostosFrame) -> Seq<u8> {
    frame_body(f).push(crc8_of(frame_body(f)))
}

/// The fields that the first fifteen bytes of `s` hold.
pub open spec fn frame_fields(s: Seq<u8>) -> NostosFrame
    recommends
        s.len() >= FRAME_LEN,
{
    NostosFrame {
        version: s[0],
        flags: s[1],
        seq: s[2],
        lat_e7: bytes::signed32(bytes::le_value(s.subrange(3, 7))) as i32,
        lon_e7: bytes::signed32(bytes::le_value(s.subrange(7, 11))) as i32,
        time_unix: bytes::le_value(s.subrange(11, 15)) as u32,
    }
}

/// What received bytes mean: too few bytes are refused first, then a checksum that
/// does not match, then an unknown version. Bytes after the sixteenth do not count.
pub open spec fn decoded_frame(s: Seq<u8>) -> Result<NostosFrame, FrameError> {
    if s.len() < FRAME_LEN {
        Err(FrameError::TooShort)
    } else if crc8_of(s.take(15)) != s[15] {
        Err(FrameError::BadCrc)
    } else if s[0] != PROTOCOL_VERSION {
        Err(FrameError::BadVersion(s[0]))
    } else {
        Ok(frame_fields(s))
    }
}

/// A frame of the current version.
pub open spec fn made(
    seq: u8,
    lat_e7: i32,
    lon_e7: i32,
    time_unix: u32,
    fix_valid: bool,
) -> NostosFrame {
    NostosFrame {
        version: PROTOCOL_VERSION,
        flags: if fix_valid {
            FLAG_FIX_VALID
        } else {
            0
        },
        seq,
        lat_e7,
        lon_e7,
        time_unix,
    }
}

impl NostosFrame {
    /// A frame of the current version.
    pub fn new(seq: u8, lat_e7: i32, lon_e7: i32, time_unix: u32, fix_valid: bool) -> (f: Self)
        ensures
            f == (NostosFrame {
                version: PROTOCOL_VERSION,
                flags: if fix_valid {
                    FLAG_FIX_VALID
                } else {
                    0
                },
                seq,
                lat_e7,
                lon_e7,
                time_unix,
            }),
            f.fix_valid() == fix_valid,
            f == made(seq, lat_e7, lon_e7, time_unix, fix_valid),
    {
        assert(0u8 & 0x01 == 0 && 0x01u8 & 0x01 == 0x01) by (bit_vector);
        Self {
            version: PROTOCOL_VERSION,
            flags: if fix_valid {
                FLAG_FIX_VALID
            } else {
                0
            },
            seq,
            lat_e7,
            lon_e7,
            time_unix,
        }
    }

    /// Whether the fix flag is set.
    pub open spec fn fix_valid(self) -> bool {
        self.flags & FLAG_FIX_VALID != 0
    }

    /// Whether the frame holds a valid fix.
    pub fn has_fix(&self) -> (yes: bool)
        ensures
            yes == self.fix_valid(),
    {
        self.flags & FLAG_FIX_VALID != 0
    }

    /// Whether the frame announces the starting point, which the bits of `home_flag` mark.
    pub fn is_home(&self, home_flag: u8) -> (yes: bool)
        ensures
            yes == (self.flags & home_flag != 0),
    {
        self.flags & home_flag != 0
    }

    /// The position of the frame.
    pub fn geopoint(&self) -> (p: GeoPoint)
        ensures
            p == (GeoPoint { lat_e7: self.lat_e7, lon_e7: self.lon_e7 }),
    {
        GeoPoint::from_e7(self.lat_e7, self.lon_e7)
    }

    /// The sixteen bytes of the frame, with the checksum last.
    pub fn encode(&self) -> (b: [u8; FRAME_LEN])
        ensures
            b@ == frame_bytes(*self),
    {
        let lat: [u8; 4] = bytes::i32_bytes(self.lat_e7);
        let lon: [u8; 4] = bytes::i32_bytes(self.lon_e7);
        let time: [u8; 4] = bytes::u32_bytes(self.time_unix);
        let body: [u8; 15] = [
            self.version,
            self.flags,
            self.seq,
            lat[0],
            lat[1],
            lat[2],
            lat[3],
            lon[0],
            lon[1],
            lon[2],
            lon[3],
            time[0],
            time[1],
            time[2],
            time[3],
        ];
        assert(body@ =~= frame_body(*self));
        let mut b: [u8; FRAME_LEN] = [0; FRAME_LEN];
        let mut i: usize = 0;
        while i < 15
            invariant
                i <= 15,
                b@.take(i as int) =~= body@.take(i as int),
            decreases 15 - i,
        {
            let ghost before = b@;
            b[i] = body[i];
            assert(b@.take(i + 1) =~= before.take(i as int).push(body@[i as int]));
            i += 1;
        }
        assert(forall|k: int| 0 <= k < 15 ==> b@[k] == b@.take(15)[k]);
        assert(body@.take(15) =~= body@);
        b[15] = crc8(&body);
        assert(b@ =~= body@.push(b@[15]));
        b
    }

    /// Reads a frame, checking its checksum and its version.
    pub fn decode(buf: &[u8]) -> (r: Result<Self, FrameError>)
        ensures
            r == decoded_frame(buf@),
    {
        if buf.len() < FRAME_LEN {
            return Err(FrameError::TooShort);
        }
        let body: &[u8] = &buf[0..15];
        assert(body@ =~= buf@.take(15));
        if crc8(body) != buf[15] {
            return Err(FrameError::BadCrc);
        }
        let version: u8 = buf[0];
        if version != PROTOCOL_VERSION {
            return Err(FrameError::BadVersion(version));
        }
        Ok(
            Self {
                version,
                flags: buf[1],
                seq: buf[2],
                lat_e7: bytes::read_i32(buf, 3),
                lon_e7: bytes::read_i32(buf, 7),
                time_unix: bytes::read_u32(buf, 11),
            },
        )
    }
}

/// A frame of the current version that is encoded, sent with anything after it and
/// decoded comes back unchanged.
pub proof fn law_decode_of_encode(f: NostosFrame, rest: Seq<u8>)
    requires
        f.version == PROTOCOL_VERSION,
    ensures
        frame_bytes(f).len() == FRAME_LEN,
        decoded_frame(frame_bytes(f) + rest) == Ok::<NostosFrame, FrameError>(f),
{
    lemma_fields_of_bytes(f, rest);
}

/// The fields of an encoded frame are those it was made from, whatever its version,
/// and its checksum matches.
proof fn lemma_fields_of_bytes(f: NostosFrame, rest: Seq<u8>)
    ensures
        frame_body(f).len() == 15,
        frame_bytes(f).len() == FRAME_LEN,
        (frame_bytes(f) + rest).take(15) == frame_body(f),
        frame_fields(frame_bytes(f) + rest) == f,
{
    let head = seq![f.version, f.flags, f.seq];
    let lat = bytes::twos_complement(f.lat_e7 as int);
    let lon = bytes::twos_complement(f.lon_e7 as int);
    let time = f.time_unix as int;
    bytes::law_le_value_of_bytes(lat);
    bytes::law_le_value_of_bytes(lon);
    bytes::law_le_value_of_bytes(time);
    lemma_layout(
        head,
        bytes::le_bytes(lat),
        bytes::le_bytes(lon),
        bytes::le_bytes(time),
        crc8_of(frame_body(f)),
        rest,
    );
}

/// Where the parts of a frame stand in it.
proof fn lemma_layout(h: Seq<u8>, a: Seq<u8>, b: Seq<u8>, c: Seq<u8>, crc: u8, rest: Seq<u8>)
    requires
        h.len() == 3,
        a.len() == b.len() == c.len() == 4,
    ensures
        ({
            let body = h + a + b + c;
            let s = body.push(crc) + rest;
            &&& body.len() == 15
            &&& s.take(15) == body
            &&& s[15] == crc
            &&& s[0] == h[0] && s[1] == h[1] && s[2] == h[2]
            &&& s.subrange(3, 7) == a
            &&& s.subrange(7, 11) == b
            &&& s.subrange(11, 15) == c
        }),
{
    let body = h + a + b + c;
    let s = body.push(crc) + rest;
    assert(s.take(15) =~= body);
    assert(s.subrange(3, 7) =~= a);
    assert(s.subrange(7, 11) =~= b);
    assert(s.subrange(11, 15) =~= c);
}

/// Bytes that decode to a frame are, up to the sixteenth, the bytes that encode it.
pub proof fn law_encode_of_decode(s: Seq<u8>)
    requires
        decoded_frame(s) is Ok,
    ensures
        frame_bytes(decoded_frame(s)->Ok_0) == s.take(FRAME_LEN as int),
{
    let f = decoded_frame(s)->Ok_0;
    bytes::law_le_bytes_of_value(s.subrange(3, 7));
    bytes::law_le_bytes_of_value(s.subrange(7, 11));
    bytes::law_le_bytes_of_value(s.subrange(11, 15));
    assert(frame_body(f) =~= s.take(15)) by {
        let t = s.take(15);
        assert(forall|k: int| 0 <= k < 4 ==> s.subrange(3, 7)[k] == t[k + 3]);
        assert(forall|k: int| 0 <= k < 4 ==> s.subrange(7, 11)[k] == t[k + 7]);
        assert(forall|k: int| 0 <= k < 4 ==> s.subrange(11, 15)[k] == t[k + 11]);
    }
    assert(frame_bytes(f) =~= s.take(16));
}

/// Eight shifts lose nothing: different registers stay different.
proof fn lemma_crc_byte_injective(a: u8, b: u8)
    by (bit_vector)
    ensures
        crc_byte(a) == crc_byte(b) ==> a == b,
{
}

/// Two byte strings of one length that differ in exactly one place have different
/// checksums.
pub proof fn law_crc_tells_one_byte(s: Seq<u8>, at: int, byte: u8)
    requires
        0 <= at < s.len(),
        s[at] != byte,
    ensures
        crc8_of(s.update(at, byte)) != crc8_of(s),
    decreases s.len(),
{
    let t = s.update(at, byte);
    let a = crc8_of(s.drop_last());
    let b = crc8_of(t.drop_last());
    let x = s.last();
    let y = t.last();
    lemma_crc_byte_injective(a ^ x, b ^ y);
    if at == s.len() - 1 {
        assert(t.drop_last() =~= s.drop_last());
        assert(x != y ==> a ^ x != a ^ y) by (bit_vector);
    } else {
        assert(t.drop_last() =~= s.drop_last().update(at, byte));
        law_crc_tells_one_byte(s.drop_last(), at, byte);
        assert(a != b ==> a ^ x != b ^ x) by (bit_vector);
    }
}

/// A frame of which one byte was corrupted on the way is refused for its checksum.
pub proof fn law_one_corrupted_byte_is_refused(f: NostosFrame, at: int, byte: u8)
    requires
        0 <= at < FRAME_LEN,
        frame_bytes(f)[at] != byte,
    ensures
        decoded_frame(frame_bytes(f).update(at, byte)) == Err::<NostosFrame, FrameError>(
            FrameError::BadCrc,
        ),
{
    let s = frame_bytes(f);
    let t = s.update(at, byte);
    lemma_fields_of_bytes(f, Seq::empty());
    assert(s.take(15) =~= frame_body(f));
    if at < 15 {
        law_crc_tells_one_byte(frame_body(f), at, byte);
        assert(t.take(15) =~= frame_body(f).update(at, byte));
    } else {
        assert(t.take(15) =~= frame_body(f));
    }
}

/// Where the values of a frame stand in its sixteen bytes: version, flags and number in a
/// byte each, then latitude, longitude and time in four bytes each, the least significant
/// first and negative numbers in two's complement.
pub proof fn law_frame_layout(f: NostosFrame)
    ensures
        ({
            let s = frame_bytes(f);
            &&& s.len() == 16
            &&& s[0] == f.version
            &&& s[1] == f.flags
            &&& s[2] == f.seq
            &&& s[3] + 0x100 * s[4] + 0x1_0000 * s[5] + 0x100_0000 * s[6] == f.lat_e7 + (
            if f.lat_e7 < 0 {
                0x1_0000_0000
            } else {
                0int
            })
            &&& s[7] + 0x100 * s[8] + 0x1_0000 * s[9] + 0x100_0000 * s[10] == f.lon_e7 + (
            if f.lon_e7 < 0 {
                0x1_0000_0000
            } else {
                0int
            })
            &&& s[11] + 0x100 * s[12] + 0x1_0000 * s[13] + 0x100_0000 * s[14] == f.time_unix
            &&& s[15] == crc8_of(s.take(15))
        }),
{
    let s = frame_bytes(f);
    let none = Seq::<u8>::empty();
    lemma_fields_of_bytes(f, none);
    assert(s + none =~= s);
    let lat = bytes::twos_complement(f.lat_e7 as int);
    let lon = bytes::twos_complement(f.lon_e7 as int);
    bytes::law_le_value_of_bytes(lat);
    bytes::law_le_value_of_bytes(lon);
    bytes::law_le_value_of_bytes(f.time_unix as int);
}

/// Which bytes are taken for a frame, and what is read from them: at least sixteen, the
/// sixteenth the checksum of those before it, the first the version 1. The values stand
/// where they are written. Fewer bytes are refused as too short whatever they hold, and a
/// wrong checksum is told before a wrong version.
pub proof fn law_decode_reads_the_layout(s: Seq<u8>)
    ensures
        decoded_frame(s) is Ok <==> s.len() >= 16 && s[15] == crc8_of(s.take(15)) && s[0] == 1,
        s.len() < 16 <==> decoded_frame(s) == Err::<NostosFrame, FrameError>(FrameError::TooShort),
        s.len() >= 16 && s[15] != crc8_of(s.take(15)) <==> decoded_frame(s) == Err::<
            NostosFrame,
            FrameError,
        >(FrameError::BadCrc),
        decoded_frame(s) matches Err(FrameError::BadVersion(v)) ==> v == s[0] && v != 1,
        decoded_frame(s) matches Ok(f) ==> {
            &&& f.version == s[0]
            &&& f.flags == s[1]
            &&& f.seq == s[2]
            &&& (f.lat_e7 - (s[3] + 0x100 * s[4] + 0x1_0000 * s[5] + 0x100_0000 * s[6]))
                % 0x1_0000_0000 == 0
            &&& (f.lon_e7 - (s[7] + 0x100 * s[8] + 0x1_0000 * s[9] + 0x100_0000 * s[10]))
                % 0x1_0000_0000 == 0
            &&& f.time_unix == s[11] + 0x100 * s[12] + 0x1_0000 * s[13] + 0x100_0000 * s[14]
        },
{
    if s.len() >= 16 {
        bytes::law_le_bytes_of_value(s.subrange(3, 7));
        bytes::law_le_bytes_of_value(s.subrange(7, 11));
        bytes::law_le_bytes_of_value(s.subrange(11, 15));
    }
}

/// Bytes after the sixteenth change nothing.
pub proof fn law_decode_ends_at_the_sixteenth(s: Seq<u8>, rest: Seq<u8>)
    requires
        s.len() >= 16,
    ensures
        decoded_frame(s + rest) == decoded_frame(s),
{
    assert((s + rest).take(15) =~= s.take(15));
    assert((s + rest).subrange(3, 7) =~= s.subrange(3, 7));
    assert((s + rest).subrange(7, 11) =~= s.subrange(7, 11));
    assert((s + rest).subrange(11, 15) =~= s.subrange(11, 15));
}

/// The checksum of one byte more is that of a single byte: the checksum so far combined
/// with it.
pub proof fn law_crc_goes_byte_by_byte(s: Seq<u8>, b: u8)
    ensures
        crc8_of(Seq::empty()) == 0,
        crc8_of(s.push(b)) == crc8_of(seq![crc8_of(s) ^ b]),
{
    let c = crc8_of(s) ^ b;
    assert(s.push(b).drop_last() =~= s);
    assert(seq![c].drop_last() =~= Seq::<u8>::empty());
    assert(seq![c].last() == c);
    assert(crc8_of(seq![c].drop_last()) == 0);
    assert(0u8 ^ c == c) by (bit_vector);
}

/// The checksum of a single byte: each of its bits brings in what is left of `x^8` to
/// `x^15` after division by `x^8 + x^2 + x + 1`.
pub proof fn law_crc_of_a_byte(b: u8)
    ensures
        crc8_of(seq![b]) == (if b & 0x01 != 0 {
            0x07u8
        } else {
            0
        }) ^ (if b & 0x02 != 0 {
            0x0eu8
        } else {
            0
        }) ^ (if b & 0x04 != 0 {
            0x1cu8
        } else {
            0
        }) ^ (if b & 0x08 != 0 {
            0x38u8
        } else {
            0
        }) ^ (if b & 0x10 != 0 {
            0x70u8
        } else {
            0
        }) ^ (if b & 0x20 != 0 {
            0xe0u8
        } else {
            0
        }) ^ (if b & 0x40 != 0 {
            0xc7u8
        } else {
            0
        }) ^ (if b & 0x80 != 0 {
            0x89u8
        } else {
            0
        }),
{
    assert(seq![b].drop_last() =~= Seq::<u8>::empty());
    assert(crc8_of(seq![b].drop_last()) == 0);
    assert(seq![b].last() == b);
    assert(0u8 ^ b == b) by (bit_vector);
    lemma_crc_byte_bits(b);
}

proof fn lemma_crc_byte_bits(b: u8)
    by (bit_vector)
    ensures
        crc_byte(b) == (if b & 0x01 != 0 {
            0x07u8
        } else {
            0
        }) ^ (if b & 0x02 != 0 {
            0x0eu8
        } else {
            0
        }) ^ (if b & 0x04 != 0 {
            0x1cu8
        } else {
            0
        }) ^ (if b & 0x08 != 0 {
            0x38u8
        } else {
            0
        }) ^ (if b & 0x10 != 0 {
            0x70u8
        } else {
            0
        }) ^ (if b & 0x20 != 0 {
            0xe0u8
        } else {
            0
        }) ^ (if b & 0x40 != 0 {
            0xc7u8
        } else {
            0
        }) ^ (if b & 0x80 != 0 {
            0x89u8
        } else {
            0
        }),
{
}

/// Bytes with their checksum behind them have the checksum 0.
pub proof fn law_crc_checks_itself(s: Seq<u8>)
    ensures
        crc8_of(s.push(crc8_of(s))) == 0,
{
    let c = crc8_of(s);
    law_crc_goes_byte_by_byte(s, c);
    assert(c ^ c == 0) by (bit_vector);
    law_crc_of_a_byte(0);
    assert((0u8 & 0x01 == 0) && (0u8 & 0x02 == 0) && (0u8 & 0x04 == 0) && (0u8 & 0x08 == 0) && (0u8
        & 0x10 == 0) && (0u8 & 0x20 == 0) && (0u8 & 0x40 == 0) && (0u8 & 0x80 == 0) && (0u8 ^ 0
        == 0)) by (bit_vector);
}

/// The flag of a fix is the lowest bit, whatever the other bits are.
pub proof fn law_fix_is_the_lowest_flag(f: NostosFrame)
    ensures
        f.fix_valid() <==> f.flags % 2 == 1,
{
    let flags = f.flags;
    assert((flags & 1 != 0) == (flags % 2 == 1)) by (bit_vector);
}

/// A new frame has what it was made from, each under its own name, is of version 1, and has
/// no flag set but that of its fix, if it has one.
pub proof fn law_made_frame(seq: u8, lat_e7: i32, lon_e7: i32, time_unix: u32, fix_valid: bool)
    ensures
        ({
            let f = made(seq, lat_e7, lon_e7, time_unix, fix_valid);
            &&& f.version == 1
            &&& f.seq == seq
            &&& f.lat_e7 == lat_e7
            &&& f.lon_e7 == lon_e7
            &&& f.time_unix == time_unix
            &&& fix_valid ==> f.flags == 1
            &&& !fix_valid ==> f.flags == 0
            &&& f.fix_valid() == fix_valid
        }),
{
    let f = made(seq, lat_e7, lon_e7, time_unix, fix_valid);
    law_fix_is_the_lowest_flag(f);
}

} // verus!
