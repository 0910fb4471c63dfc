//! Receiving Meshtastic frames: raw bytes are split into a header and a payload, the
//! payload is decrypted, and a position is read from it.

use vstd::prelude::*;

use aes::cipher::{KeyIvInit, StreamCipher};

use crate::bytes;
use crate::protobuf;
use crate::protobuf::Reader;

verus! {

/// Length of the header in bytes.
pub const HEADER_LEN: usize = 16;

/// Port number of the position application.
pub const PORTNUM_POSITION_APP: u32 = 3;

/// The AES-128 key of the default public channel.
pub const DEFAULT_CHANNEL_KEY: [u8; 16] = [
    0xd4,
    0xf1,
    0xbb,
    0x3a,
    0x20,
    0x29,
    0x07,
    0x59,
    0xf0,
    0xbc,
    0xff,
    0xab,
    0xcf,
    0x4e,
    0x69,
    0x01,
];

/// Why a frame was not understood.
#[derive(Debug, Clone, Copy, PartialEq, Eq, Structural)]
pub enum DecodeError {
    /// The frame is shorter than its header.
    TooShort,
    /// The bytes ended in the middle of a protobuf message.
    Truncated,
    /// A wire type that is not read here.
    BadWireType(u8),
    /// A message of another application, with its port number.
    NotPosition(u32),
    /// The position lacks its latitude or its longitude.
    MissingCoords,
}

/// The header of a frame: `dest | from | packet_id` as little-endian 32-bit numbers,
/// then `flags | channel_hash | next_hop | relay_node`.
#[derive(Debug, Clone, Copy, PartialEq, Eq, Structural)]
pub struct MeshHeader {
    /// Node that the frame is for; `0xFFFF_FFFF` for all.
    pub dest: u32,
    /// Node that sent the frame.
    pub from: u32,
    /// Number of the packet.
    pub packet_id: u32,
    /// Hop limit and other flags, as received.
    pub flags: u8,
    /// Hash of the channel's name and key.
    pub channel_hash: u8,
    /// Next hop of the route.
    pub next_hop: u8,
    /// Node that relayed the frame.
    pub relay_node: u8,
}

/// The header that sixteen bytes hold.
pub open spec fn header_fields(s: Seq<u8>) -> MeshHeader
    recommends
        s.len() >= HEADER_LEN,
{
    MeshHeader {
        dest: bytes::le_value(s.subrange(0, 4)) as u32,
        from: bytes::le_value(s.subrange(4, 8)) as u32,
        packet_id: bytes::le_value(s.subrange(8, 12)) as u32,
        flags: s[12],
        channel_hash: s[13],
        next_hop: s[14],
        relay_node: s[15],
    }
}

/// The header that a frame starts with.
pub open spec fn parsed_header(s: Seq<u8>) -> Result<MeshHeader, DecodeError> {
    if s.len() < HEADER_LEN {
        Err(DecodeError::TooShort)
    } else {
        Ok(header_fields(s))
    }
}

/// The first counter block of the cipher: the packet number in eight bytes, the sender
/// in four, both little-endian, and four zero bytes.
pub open spec fn nonce_of(h: MeshHeader) -> Seq<u8> {
    bytes::le_bytes(h.packet_id as int) + seq![0, 0, 0, 0] + bytes::le_bytes(h.from as int)
        + seq![0, 0, 0, 0]
}

impl MeshHeader {
    /// Reads the header that a frame starts with.
    pub fn parse(frame: &[u8]) -> (r: Result<Self, DecodeError>)
        ensures
            r == parsed_header(frame@),
    {
        if frame.len() < HEADER_LEN {
            return Err(DecodeError::TooShort);
        }
        Ok(
            Self {
                dest: bytes::read_u32(frame, 0),
                from: bytes::read_u32(frame, 4),
                packet_id: bytes::read_u32(frame, 8),
                flags: frame[12],
                channel_hash: frame[13],
                next_hop: frame[14],
                relay_node: frame[15],
            },
        )
    }

    /// The first counter block for this frame's payload.
    pub fn nonce(&self) -> (n: [u8; 16])
        ensures
            n@ == nonce_of(*self),
    {
        let id: [u8; 4] = bytes::u32_bytes(self.packet_id);
        let from: [u8; 4] = bytes::u32_bytes(self.from);
        let n: [u8; 16] = [
            id[0],
            id[1],
            id[2],
            id[3],
            0,
            0,
            0,
            0,
            from[0],
            from[1],
            from[2],
            from[3],
            0,
            0,
            0,
            0,
        ];
        assert(n@ =~= nonce_of(*self));
        n
    }
}

/// The sixteen bytes that AES-128 with a key makes of one block, as the `aes` crate computes
/// them.
pub uninterp spec fn aes_block(key: Seq<u8>, block: Seq<u8>) -> Seq<u8>;

/// Counter block number `j`: the first one plus `j`, as a big-endian number of 128 bits that
/// wraps.
pub open spec fn counter_block(first: Seq<u8>, j: int) -> Seq<u8> {
    bytes::be_bytes(bytes::be_value(first) + j, 16)
}

/// Byte `index` of the key stream in counter mode, for a key and a first counter block: each
/// counter block in turn gives sixteen bytes of it.
pub open spec fn keystream_byte(key: Seq<u8>, first: Seq<u8>, index: int) -> u8 {
    aes_block(key, counter_block(first, index / 16))[index % 16]
}

/// Calls `apply_keystream` of `ctr::Ctr128BE<aes::Aes128>`. Believed of it: it keeps the
/// length, and changes byte `i` by exclusive or with byte `i % 16` of what AES-128 makes of
/// counter block number `i / 16`, counted from `block`.
#[verifier::external_body]
fn apply_keystream(key: &[u8; 16], block: &[u8; 16], data: &mut [u8])
    ensures
        final(data)@.len() == old(data)@.len(),
        forall|i: int|
            0 <= i < old(data)@.len() ==> #[trigger] final(data)@[i] == old(data)@[i]
                ^ aes_block(key@, counter_block(block@, i / 16))[i % 16],
{
    let mut cipher = ctr::Ctr128BE::<aes::Aes128>::new(key.into(), block.into());
    cipher.apply_keystream(data);
}

/// A payload under the cipher: encrypted if it was plain, plain if it was encrypted.
pub open spec fn ciphered(h: MeshHeader, key: Seq<u8>, s: Seq<u8>) -> Seq<u8> {
    Seq::new(s.len(), |i: int| s[i] ^ keystream_byte(key, nonce_of(h), i))
}

/// Decrypts a payload in place with AES-128 in counter mode.
pub fn decrypt_in_place(header: &MeshHeader, key: &[u8; 16], payload: &mut [u8])
    ensures
        final(payload)@ == ciphered(*header, key@, old(payload)@),
{
    let nonce: [u8; 16] = header.nonce();
    apply_keystream(key, &nonce, payload);
    assert(payload@ =~= ciphered(*header, key@, old(payload)@));
}

/// Decrypting twice gives back what was there: encrypting and decrypting are one.
pub proof fn law_cipher_undoes_itself(h: MeshHeader, key: Seq<u8>, s: Seq<u8>)
    ensures
        ciphered(h, key, ciphered(h, key, s)) == s,
{
    let t = ciphered(h, key, ciphered(h, key, s));
    assert forall|i: int| 0 <= i < s.len() implies t[i] == s[i] by {
        let a = s[i];
        let k = keystream_byte(key, nonce_of(h), i);
        assert((a ^ k) ^ k == a) by (bit_vector);
    }
    assert(t =~= s);
}

/// The counter stays within the last four bytes of its block, which start at zero: packet
/// and sender stay as they are in every counter block of a payload.
pub proof fn law_counter_keeps_to_its_bytes(h: MeshHeader, j: int)
    requires
        0 <= j < 0x1_0000_0000,
    ensures
        counter_block(nonce_of(h), j) == nonce_of(h).take(12) + bytes::be_bytes(j, 4),
{
    let n = nonce_of(h);
    let a = n.take(12);
    lemma_zero_tail(n);
    bytes::law_be_bytes_of_value(a);
    lemma_low_bytes(bytes::be_value(a), j);
}

/// Four zero bytes at the end of a block multiply its value by 2^32.
proof fn lemma_zero_tail(n: Seq<u8>)
    requires
        n.len() == 16,
        n[12] == 0 && n[13] == 0 && n[14] == 0 && n[15] == 0,
    ensures
        bytes::be_value(n) == 0x1_0000_0000 * bytes::be_value(n.take(12)),
{
    let v = bytes::be_value(n.take(12));
    assert(n.drop_last() =~= n.take(15));
    assert(n.take(15).drop_last() =~= n.take(14));
    assert(n.take(14).drop_last() =~= n.take(13));
    assert(n.take(13).drop_last() =~= n.take(12));
    assert(bytes::be_value(n.take(13)) == 0x100 * v);
    assert(bytes::be_value(n.take(14)) == 0x1_0000 * v);
    assert(bytes::be_value(n.take(15)) == 0x100_0000 * v);
}

/// A number below 2^32 keeps to the last four of sixteen bytes.
proof fn lemma_low_bytes(v: int, j: int)
    requires
        0 <= j < 0x1_0000_0000,
    ensures
        bytes::be_bytes(0x1_0000_0000 * v + j, 16) == bytes::be_bytes(v, 12) + bytes::be_bytes(
            j,
            4,
        ),
{
    let w = 0x1_0000_0000 * v + j;
    let j1 = j / 0x100;
    let j2 = j1 / 0x100;
    let j3 = j2 / 0x100;
    let w1 = 0x100_0000 * v + j1;
    let w2 = 0x1_0000 * v + j2;
    let w3 = 0x100 * v + j3;
    let b0 = (j % 0x100) as u8;
    let b1 = (j1 % 0x100) as u8;
    let b2 = (j2 % 0x100) as u8;
    let b3 = (j3 % 0x100) as u8;
    assert(w / 0x100 == w1 && w % 0x100 == j % 0x100);
    assert(w1 / 0x100 == w2 && w1 % 0x100 == j1 % 0x100);
    assert(w2 / 0x100 == w3 && w2 % 0x100 == j2 % 0x100);
    assert(w3 / 0x100 == v && w3 % 0x100 == j3 % 0x100);
    let top = bytes::be_bytes(v, 12);
    assert(bytes::be_bytes(w, 16) == top.push(b3).push(b2).push(b1).push(b0)) by {
        assert(bytes::be_bytes(w3, 13) == top.push(b3));
        assert(bytes::be_bytes(w2, 14) == bytes::be_bytes(w3, 13).push(b2));
        assert(bytes::be_bytes(w1, 15) == bytes::be_bytes(w2, 14).push(b1));
        assert(bytes::be_bytes(w, 16) == bytes::be_bytes(w1, 15).push(b0));
    }
    let none = Seq::<u8>::empty();
    assert(bytes::be_bytes(j, 4) == none.push(b3).push(b2).push(b1).push(b0)) by {
        assert(j3 / 0x100 == 0);
        assert(bytes::be_bytes(j3 / 0x100, 0) == none);
        assert(bytes::be_bytes(j3, 1) == none.push(b3));
        assert(bytes::be_bytes(j2, 2) == bytes::be_bytes(j3, 1).push(b2));
        assert(bytes::be_bytes(j1, 3) == bytes::be_bytes(j2, 2).push(b1));
        assert(bytes::be_bytes(j, 4) == bytes::be_bytes(j1, 3).push(b0));
    }
    assert(top.push(b3).push(b2).push(b1).push(b0) =~= top + none.push(b3).push(b2).push(b1).push(
        b0,
    ));
}

/// A decrypted message: an application and its own bytes.
#[derive(Debug, Clone, Copy, PartialEq, Eq)]
pub struct Data<'a> {
    /// Application; positions are under [`PORTNUM_POSITION_APP`].
    pub portnum: u32,
    /// The application's bytes, within the frame.
    pub payload: &'a [u8],
}

/// What a message says when `portnum` and `payload` were read and `s` is still to be
/// read. Field 1 is the port number and field 2 the payload; of several the last one
/// counts, and every other field is passed over.
pub open spec fn message_from(s: Seq<u8>, portnum: u32, payload: Seq<u8>) -> Result<
    (u32, Seq<u8>),
    DecodeError,
>
    decreases s.len(),
{
    if s.len() == 0 {
        Ok((portnum, payload))
    } else {
        match protobuf::tag(s) {
            None => Err(DecodeError::Truncated),
            Some((field, wire, rest)) => {
                proof {
                    protobuf::lemma_tag_shortens(s);
                    protobuf::lemma_steps_shorten(rest, wire);
                }
                if field == 1 && wire == protobuf::WIRE_VARINT {
                    match protobuf::varint(rest) {
                        None => Err(DecodeError::Truncated),
                        Some((v, after)) => message_from(
                            after,
                            (v % 0x1_0000_0000) as u32,
                            payload,
                        ),
                    }
                } else if field == 2 && wire == protobuf::WIRE_LEN {
                    match protobuf::delimited(rest) {
                        None => Err(DecodeError::Truncated),
                        Some((b, after)) => message_from(after, portnum, b),
                    }
                } else {
                    match protobuf::skipped(rest, wire) {
                        Err(e) => Err(e),
                        Ok(after) => message_from(after, portnum, payload),
                    }
                }
            },
        }
    }
}

/// The port number and the payload of a message; 0 and nothing where it lacks them.
pub open spec fn message(s: Seq<u8>) -> Result<(u32, Seq<u8>), DecodeError> {
    message_from(s, 0, Seq::empty())
}

impl<'a> Data<'a> {
    /// Reads a decrypted message.
    pub fn parse(buf: &'a [u8]) -> (r: Result<Self, DecodeError>)
        ensures
            match (message(buf@), r) {
                (Ok((portnum, payload)), Ok(data)) => data.portnum == portnum
                    && data.payload@ == payload,
                (Err(e), Err(d)) => d == e,
                _ => false,
            },
    {
        let mut reader = Reader::new(buf);
        let mut portnum: u32 = 0;
        let mut payload: &'a [u8] = &buf[0..0];
        assert(payload@ =~= Seq::empty());
        while !reader.at_end()
            invariant
                message(buf@) == message_from(reader@, portnum, payload@),
            decreases reader@.len(),
        {
            let ghost s = reader@;
            match reader.tag() {
                Err(e) => {
                    return Err(e);
                },
                Ok((field, wire)) => {
                    proof {
                        protobuf::lemma_tag_shortens(s);
                        protobuf::lemma_steps_shorten(reader@, wire as int);
                    }
                    if field == 1 && wire == protobuf::WIRE_VARINT {
                        match reader.varint() {
                            Err(e) => {
                                return Err(e);
                            },
                            Ok(v) => {
                                portnum = (v % 0x1_0000_0000) as u32;
                            },
                        }
                    } else if field == 2 && wire == protobuf::WIRE_LEN {
                        match reader.delimited() {
                            Err(e) => {
                                return Err(e);
                            },
                            Ok(b) => {
                                payload = b;
                            },
                        }
                    } else {
                        match reader.skip_field(wire) {
                            Err(e) => {
                                return Err(e);
                            },
                            Ok(_) => {},
                        }
                    }
                },
            }
        }
        Ok(Self { portnum, payload })
    }
}

/// The fields of a position that are used here.
#[derive(Debug, Clone, Copy, PartialEq, Eq, Structural)]
pub struct Position {
    /// Latitude in degrees times 10^7.
    pub latitude_i: i32,
    /// Longitude in degrees times 10^7.
    pub longitude_i: i32,
    /// Altitude in metres.
    pub altitude: Option<i32>,
    /// Time of the fix in Unix seconds.
    pub time: Option<u32>,
}

/// The fields of a position that were read so far.
#[derive(Debug, Clone, Copy, PartialEq, Eq, Structural)]
pub struct PositionParts {
    pub latitude_i: Option<i32>,
    pub longitude_i: Option<i32>,
    pub altitude: Option<i32>,
    pub time: Option<u32>,
}

impl PositionParts {
    /// No field at all.
    pub open spec fn none() -> Self {
        PositionParts { latitude_i: None, longitude_i: None, altitude: None, time: None }
    }

    /// With field `field` read as `v`: 1 is the latitude, 2 the longitude, 3 the
    /// altitude, 4 the time.
    pub open spec fn with(self, field: int, v: int) -> Self {
        if field == 1 {
            PositionParts { latitude_i: Some(v as i32), ..self }
        } else if field == 2 {
            PositionParts { longitude_i: Some(v as i32), ..self }
        } else if field == 3 {
            PositionParts { altitude: Some(v as i32), ..self }
        } else {
            PositionParts { time: Some(bytes::twos_complement(v) as u32), ..self }
        }
    }

    /// The position, which takes both coordinates.
    pub open spec fn complete(self) -> Result<Position, DecodeError> {
        match (self.latitude_i, self.longitude_i) {
            (Some(latitude_i), Some(longitude_i)) => Ok(
                Position { latitude_i, longitude_i, altitude: self.altitude, time: self.time },
            ),
            _ => Err(DecodeError::MissingCoords),
        }
    }
}

/// What a position says when `parts` were read and `s` is still to be read. Of several
/// fields of one number the last one counts; a field with another number is passed
/// over.
pub open spec fn position_from(s: Seq<u8>, parts: PositionParts) -> Result<Position, DecodeError>
    decreases s.len(),
{
    if s.len() == 0 {
        parts.complete()
    } else {
        match protobuf::tag(s) {
            None => Err(DecodeError::Truncated),
            Some((field, wire, rest)) => {
                proof {
                    protobuf::lemma_tag_shortens(s);
                    protobuf::lemma_steps_shorten(rest, wire);
                }
                if 1 <= field <= 4 {
                    match protobuf::i32_field(rest, wire) {
                        Err(e) => Err(e),
                        Ok((v, after)) => position_from(after, parts.with(field, v)),
                    }
                } else {
                    match protobuf::skipped(rest, wire) {
                        Err(e) => Err(e),
                        Ok(after) => position_from(after, parts),
                    }
                }
            },
        }
    }
}

/// The position that a payload holds.
pub open spec fn position(s: Seq<u8>) -> Result<Position, DecodeError> {
    position_from(s, PositionParts::none())
}

impl Position {
    /// Reads a position. Each number may be sent in four fixed bytes or as a base-128
    /// number.
    pub fn parse(buf: &[u8]) -> (r: Result<Self, DecodeError>)
        ensures
            r == position(buf@),
    {
        let mut reader = Reader::new(buf);
        let mut parts = PositionParts {
            latitude_i: None,
            longitude_i: None,
            altitude: None,
            time: None,
        };
        while !reader.at_end()
            invariant
                position(buf@) == position_from(reader@, parts),
            decreases reader@.len(),
        {
            let ghost s = reader@;
            match reader.tag() {
                Err(e) => {
                    return Err(e);
                },
                Ok((field, wire)) => {
                    proof {
                        protobuf::lemma_tag_shortens(s);
                        protobuf::lemma_steps_shorten(reader@, wire as int);
                    }
                    if 1 <= field && field <= 4 {
                        match reader.i32_field(wire) {
                            Err(e) => {
                                return Err(e);
                            },
                            Ok(v) => {
                                if field == 1 {
                                    parts.latitude_i = Some(v);
                                } else if field == 2 {
                                    parts.longitude_i = Some(v);
                                } else if field == 3 {
                                    parts.altitude = Some(v);
                                } else {
                                    parts.time = Some(bytes::as_unsigned(v));
                                }
                            },
                        }
                    } else {
                        match reader.skip_field(wire) {
                            Err(e) => {
                                return Err(e);
                            },
                            Ok(_) => {},
                        }
                    }
                },
            }
        }
        match (parts.latitude_i, parts.longitude_i) {
            (Some(latitude_i), Some(longitude_i)) => Ok(
                Self { latitude_i, longitude_i, altitude: parts.altitude, time: parts.time },
            ),
            _ => Err(DecodeError::MissingCoords),
        }
    }
}

/// What a decrypted payload says of a position.
pub open spec fn position_message(s: Seq<u8>) -> Result<Position, DecodeError> {
    match message(s) {
        Err(e) => Err(e),
        Ok((portnum, payload)) => if portnum != PORTNUM_POSITION_APP {
            Err(DecodeError::NotPosition(portnum))
        } else {
            position(payload)
        },
    }
}

/// A frame with its payload under the cipher; one without a whole header stays as it is.
pub open spec fn frame_ciphered(s: Seq<u8>, key: Seq<u8>) -> Seq<u8> {
    if s.len() < HEADER_LEN {
        s
    } else {
        s.take(16) + ciphered(header_fields(s), key, s.skip(16))
    }
}

/// The header and the position of a received frame.
pub open spec fn decoded_position(s: Seq<u8>, key: Seq<u8>) -> Result<
    (MeshHeader, Position),
    DecodeError,
> {
    if s.len() < HEADER_LEN {
        Err(DecodeError::TooShort)
    } else {
        let h = header_fields(s);
        match position_message(ciphered(h, key, s.skip(16))) {
            Err(e) => Err(e),
            Ok(p) => Ok((h, p)),
        }
    }
}

/// Reads the position out of a received frame, whose payload is decrypted in place.
pub fn decode_position(frame: &mut [u8], key: &[u8; 16]) -> (r: Result<
    (MeshHeader, Position),
    DecodeError,
>)
    ensures
        final(frame)@ == frame_ciphered(old(frame)@, key@),
        r == decoded_position(old(frame)@, key@),
{
    let header = match MeshHeader::parse(frame) {
        Err(e) => {
            return Err(e);
        },
        Ok(h) => h,
    };
    let (_, payload) = frame.split_at_mut(HEADER_LEN);
    decrypt_in_place(&header, key, payload);
    match Data::parse(payload) {
        Err(e) => Err(e),
        Ok(data) => {
            if data.portnum != PORTNUM_POSITION_APP {
                return Err(DecodeError::NotPosition(data.portnum));
            }
            match Position::parse(data.payload) {
                Err(e) => Err(e),
                Ok(p) => Ok((header, p)),
            }
        },
    }
}

/// A coordinate sent in four fixed bytes is taken over, and the last one counts.
pub proof fn law_position_takes_fixed32(field: int, v: int, rest: Seq<u8>, parts: PositionParts)
    requires
        1 <= field <= 4,
        -0x8000_0000 <= v < 0x8000_0000,
    ensures
        position_from(protobuf::fixed32_field(field, v) + rest, parts) == position_from(
            rest,
            parts.with(field, v),
        ),
{
    let t = protobuf::tag_bytes(field, protobuf::WIRE_I32 as int);
    let b = bytes::le_bytes(bytes::twos_complement(v));
    assert(protobuf::fixed32_field(field, v) + rest =~= t + (b + rest));
    protobuf::law_tag_of_bytes(field, protobuf::WIRE_I32 as int, b + rest);
    protobuf::law_fixed32_of_bytes(v, rest);
}

/// A coordinate sent in base 128 is taken over just as one in four fixed bytes.
pub proof fn law_position_takes_varint(field: int, v: int, rest: Seq<u8>, parts: PositionParts)
    requires
        1 <= field <= 4,
        -0x8000_0000 <= v < 0x8000_0000,
    ensures
        position_from(
            protobuf::varint_field(field, protobuf::sign_extended(v)) + rest,
            parts,
        ) == position_from(rest, parts.with(field, v)),
{
    let t = protobuf::tag_bytes(field, protobuf::WIRE_VARINT as int);
    let b = protobuf::varint_bytes(protobuf::sign_extended(v));
    assert(protobuf::varint_field(field, protobuf::sign_extended(v)) + rest =~= t + (b + rest));
    protobuf::law_tag_of_bytes(field, protobuf::WIRE_VARINT as int, b + rest);
    protobuf::law_signed_varint_of_bytes(v, rest);
}

/// A field that is passed over leaves the rest to be read.
proof fn lemma_position_passes_over(
    field: int,
    wire: int,
    value: Seq<u8>,
    rest: Seq<u8>,
    parts: PositionParts,
)
    requires
        field == 0 || 5 <= field < 0x2000_0000,
        0 <= wire < 8,
        protobuf::skipped(value + rest, wire) == Ok::<Seq<u8>, DecodeError>(rest),
    ensures
        position_from(protobuf::tag_bytes(field, wire) + value + rest, parts) == position_from(
            rest,
            parts,
        ),
{
    assert(protobuf::tag_bytes(field, wire) + value + rest =~= protobuf::tag_bytes(field, wire) + (
    value + rest));
    protobuf::law_tag_of_bytes(field, wire, value + rest);
    protobuf::lemma_tag_shortens(protobuf::tag_bytes(field, wire) + (value + rest));
}

/// A field of another number, of any of the four wire types, changes nothing.
pub proof fn law_position_passes_over(
    field: int,
    v: int,
    b: Seq<u8>,
    rest: Seq<u8>,
    parts: PositionParts,
)
    requires
        field == 0 || 5 <= field < 0x2000_0000,
        0 <= v < 0x1_0000_0000_0000_0000,
        b.len() <= usize::MAX,
    ensures
        position_from(protobuf::varint_field(field, v) + rest, parts) == position_from(rest, parts),
        position_from(protobuf::delimited_field(field, b) + rest, parts) == position_from(
            rest,
            parts,
        ),
        b.len() == 8 ==> position_from(protobuf::fixed64_field(field, b) + rest, parts)
            == position_from(rest, parts),
        v < 0x1_0000_0000 ==> position_from(protobuf::fixed32_field(field, v) + rest, parts)
            == position_from(rest, parts),
{
    let n = protobuf::varint_bytes(v);
    protobuf::law_varint_of_bytes(v, rest);
    lemma_position_passes_over(field, protobuf::WIRE_VARINT as int, n, rest, parts);
    let len = protobuf::varint_bytes(b.len() as int);
    protobuf::law_delimited_of_bytes(b, rest);
    lemma_position_passes_over(field, protobuf::WIRE_LEN as int, len + b, rest, parts);
    let t = protobuf::tag_bytes(field, protobuf::WIRE_LEN as int);
    assert(t + (len + b) =~= t + len + b);
    if b.len() == 8 {
        assert((b + rest).skip(8) =~= rest);
        lemma_position_passes_over(field, protobuf::WIRE_I64 as int, b, rest, parts);
    }
    let f = bytes::le_bytes(bytes::twos_complement(v));
    assert((f + rest).skip(4) =~= rest);
    lemma_position_passes_over(field, protobuf::WIRE_I32 as int, f, rest, parts);
}

/// The bytes of a position: its coordinates and time in four fixed bytes each, its
/// altitude in base 128.
pub open spec fn position_bytes(p: Position) -> Seq<u8> {
    protobuf::fixed32_field(1, p.latitude_i as int) + protobuf::fixed32_field(
        2,
        p.longitude_i as int,
    ) + match p.altitude {
        Some(a) => protobuf::varint_field(3, protobuf::sign_extended(a as int)),
        None => Seq::empty(),
    } + match p.time {
        Some(t) => protobuf::fixed32_field(4, bytes::signed32(t as int)),
        None => Seq::empty(),
    }
}

/// A position that is encoded and read comes back unchanged.
pub proof fn law_position_of_bytes(p: Position)
    ensures
        position(position_bytes(p)) == Ok::<Position, DecodeError>(p),
        position_bytes(p).len() <= 80,
{
    let lat = protobuf::fixed32_field(1, p.latitude_i as int);
    let lon = protobuf::fixed32_field(2, p.longitude_i as int);
    let alt = match p.altitude {
        Some(a) => protobuf::varint_field(3, protobuf::sign_extended(a as int)),
        None => Seq::empty(),
    };
    let time = match p.time {
        Some(t) => protobuf::fixed32_field(4, bytes::signed32(t as int)),
        None => Seq::empty(),
    };
    let none = Seq::<u8>::empty();
    protobuf::law_varint_of_bytes(13, none);
    protobuf::law_varint_of_bytes(21, none);
    protobuf::law_varint_of_bytes(24, none);
    protobuf::law_varint_of_bytes(37, none);
    if let Some(a) = p.altitude {
        protobuf::law_varint_of_bytes(protobuf::sign_extended(a as int), none);
    }
    let p0 = PositionParts::none();
    let p1 = p0.with(1, p.latitude_i as int);
    let p2 = p1.with(2, p.longitude_i as int);
    assert(position_bytes(p) =~= lat + (lon + (alt + time)));
    law_position_takes_fixed32(1, p.latitude_i as int, lon + (alt + time), p0);
    law_position_takes_fixed32(2, p.longitude_i as int, alt + time, p1);
    let p3 = match p.altitude {
        Some(a) => p2.with(3, a as int),
        None => p2,
    };
    if let Some(a) = p.altitude {
        law_position_takes_varint(3, a as int, time, p2);
    } else {
        assert(alt + time =~= time);
    }
    if let Some(t) = p.time {
        let v = bytes::signed32(t as int);
        assert(time =~= time + Seq::empty());
        law_position_takes_fixed32(4, v, Seq::empty(), p3);
        assert(bytes::twos_complement(v) == t);
    }
}

/// The bytes of a message.
pub open spec fn message_bytes(portnum: u32, payload: Seq<u8>) -> Seq<u8> {
    protobuf::varint_field(1, portnum as int) + protobuf::delimited_field(2, payload)
}

/// A message that is encoded and read comes back unchanged.
pub proof fn law_message_of_bytes(portnum: u32, payload: Seq<u8>)
    requires
        payload.len() <= usize::MAX,
    ensures
        message(message_bytes(portnum, payload)) == Ok::<(u32, Seq<u8>), DecodeError>(
            (portnum, payload),
        ),
{
    let wv = protobuf::WIRE_VARINT as int;
    let wl = protobuf::WIRE_LEN as int;
    let n = protobuf::varint_bytes(portnum as int);
    let second = protobuf::delimited_field(2, payload);
    let none = Seq::<u8>::empty();
    assert(message_bytes(portnum, payload) =~= protobuf::tag_bytes(1, wv) + (n + second));
    protobuf::law_tag_of_bytes(1, wv, n + second);
    protobuf::law_varint_of_bytes(portnum as int, second);
    let d = protobuf::varint_bytes(payload.len() as int) + payload;
    assert(second =~= protobuf::tag_bytes(2, wl) + d);
    protobuf::law_tag_of_bytes(2, wl, d);
    protobuf::law_delimited_of_bytes(payload, none);
    assert(d + none =~= d);
    assert(message_bytes(portnum, payload).len() > 0 && second.len() > 0) by {
        protobuf::lemma_tag_shortens(message_bytes(portnum, payload));
        protobuf::lemma_tag_shortens(second);
    }
    assert(message_from(none, portnum, payload) == Ok::<(u32, Seq<u8>), DecodeError>(
        (portnum, payload),
    ));
    assert(message_from(second, portnum, none) == message_from(none, portnum, payload));
}

/// A field that is passed over leaves the rest to be read.
proof fn lemma_message_passes_over(
    field: int,
    wire: int,
    value: Seq<u8>,
    rest: Seq<u8>,
    portnum: u32,
    payload: Seq<u8>,
)
    requires
        0 <= field < 0x2000_0000,
        0 <= wire < 8,
        !(field == 1 && wire == protobuf::WIRE_VARINT),
        !(field == 2 && wire == protobuf::WIRE_LEN),
        protobuf::skipped(value + rest, wire) == Ok::<Seq<u8>, DecodeError>(rest),
    ensures
        message_from(protobuf::tag_bytes(field, wire) + value + rest, portnum, payload)
            == message_from(rest, portnum, payload),
{
    let t = protobuf::tag_bytes(field, wire);
    assert(t + value + rest =~= t + (value + rest));
    protobuf::law_tag_of_bytes(field, wire, value + rest);
    protobuf::lemma_tag_shortens(t + (value + rest));
}

/// In a message, a field of another number, of any of the four wire types, changes
/// nothing.
pub proof fn law_message_passes_over(
    field: int,
    v: int,
    b: Seq<u8>,
    rest: Seq<u8>,
    portnum: u32,
    payload: Seq<u8>,
)
    requires
        field == 0 || 3 <= field < 0x2000_0000,
        0 <= v < 0x1_0000_0000_0000_0000,
        b.len() <= usize::MAX,
    ensures
        message_from(protobuf::varint_field(field, v) + rest, portnum, payload) == message_from(
            rest,
            portnum,
            payload,
        ),
        message_from(protobuf::delimited_field(field, b) + rest, portnum, payload)
            == message_from(rest, portnum, payload),
        b.len() == 8 ==> message_from(protobuf::fixed64_field(field, b) + rest, portnum, payload)
            == message_from(rest, portnum, payload),
        v < 0x1_0000_0000 ==> message_from(
            protobuf::fixed32_field(field, v) + rest,
            portnum,
            payload,
        ) == message_from(rest, portnum, payload),
{
    let wl = protobuf::WIRE_LEN as int;
    let n = protobuf::varint_bytes(v);
    protobuf::law_varint_of_bytes(v, rest);
    lemma_message_passes_over(field, protobuf::WIRE_VARINT as int, n, rest, portnum, payload);
    let len = protobuf::varint_bytes(b.len() as int);
    protobuf::law_delimited_of_bytes(b, rest);
    lemma_message_passes_over(field, wl, len + b, rest, portnum, payload);
    assert(protobuf::tag_bytes(field, wl) + (len + b) =~= protobuf::tag_bytes(field, wl) + len
        + b);
    if b.len() == 8 {
        assert((b + rest).skip(8) =~= rest);
        lemma_message_passes_over(field, protobuf::WIRE_I64 as int, b, rest, portnum, payload);
    }
    let f = bytes::le_bytes(bytes::twos_complement(v));
    assert((f + rest).skip(4) =~= rest);
    lemma_message_passes_over(field, protobuf::WIRE_I32 as int, f, rest, portnum, payload);
}

/// What a sender makes of a position, the receiver reads from it: a frame made of any
/// header and the position's message under the cipher gives that header and position.
pub proof fn law_decode_of_sent(header: Seq<u8>, key: Seq<u8>, p: Position)
    requires
        header.len() == HEADER_LEN,
    ensures
        ({
            let h = header_fields(header);
            let plain = message_bytes(PORTNUM_POSITION_APP, position_bytes(p));
            decoded_position(header + ciphered(h, key, plain), key) == Ok::<
                (MeshHeader, Position),
                DecodeError,
            >((h, p))
        }),
{
    let h = header_fields(header);
    let plain = message_bytes(PORTNUM_POSITION_APP, position_bytes(p));
    let s = header + ciphered(h, key, plain);
    assert(s.subrange(0, 4) =~= header.subrange(0, 4));
    assert(s.subrange(4, 8) =~= header.subrange(4, 8));
    assert(s.subrange(8, 12) =~= header.subrange(8, 12));
    assert(header_fields(s) == h);
    assert(s.skip(16) =~= ciphered(h, key, plain));
    law_cipher_undoes_itself(h, key, plain);
    law_position_of_bytes(p);
    law_message_of_bytes(PORTNUM_POSITION_APP, position_bytes(p));
}

/// A header written as destination, sender and packet number in four bytes each, the least
/// significant first, then flags, channel, next hop and relay in a byte each, is read back
/// with exactly those fields, whatever follows it.
pub proof fn law_header_of_bytes(h: MeshHeader, rest: Seq<u8>)
    ensures
        parsed_header(
            bytes::le_bytes(h.dest as int) + bytes::le_bytes(h.from as int) + bytes::le_bytes(
                h.packet_id as int,
            ) + seq![h.flags, h.channel_hash, h.next_hop, h.relay_node] + rest,
        ) == Ok::<MeshHeader, DecodeError>(h),
{
    let a = bytes::le_bytes(h.dest as int);
    let b = bytes::le_bytes(h.from as int);
    let c = bytes::le_bytes(h.packet_id as int);
    let d = seq![h.flags, h.channel_hash, h.next_hop, h.relay_node];
    let s = a + b + c + d + rest;
    bytes::law_le_value_of_bytes(h.dest as int);
    bytes::law_le_value_of_bytes(h.from as int);
    bytes::law_le_value_of_bytes(h.packet_id as int);
    assert(s.subrange(0, 4) =~= a);
    assert(s.subrange(4, 8) =~= b);
    assert(s.subrange(8, 12) =~= c);
}

/// Every frame of sixteen bytes or more has a header, whose fields are the bytes at their
/// places; a shorter one has none.
pub proof fn law_header_reads_its_bytes(s: Seq<u8>)
    ensures
        s.len() < 16 <==> parsed_header(s) == Err::<MeshHeader, DecodeError>(DecodeError::TooShort),
        s.len() >= 16 ==> parsed_header(s) is Ok,
        parsed_header(s) matches Ok(h) ==> {
            &&& h.dest == s[0] + 0x100 * s[1] + 0x1_0000 * s[2] + 0x100_0000 * s[3]
            &&& h.from == s[4] + 0x100 * s[5] + 0x1_0000 * s[6] + 0x100_0000 * s[7]
            &&& h.packet_id == s[8] + 0x100 * s[9] + 0x1_0000 * s[10] + 0x100_0000 * s[11]
            &&& h.flags == s[12]
            &&& h.channel_hash == s[13]
            &&& h.next_hop == s[14]
            &&& h.relay_node == s[15]
        },
{
    if s.len() >= 16 {
        bytes::law_le_bytes_of_value(s.subrange(0, 4));
        bytes::law_le_bytes_of_value(s.subrange(4, 8));
        bytes::law_le_bytes_of_value(s.subrange(8, 12));
    }
}

/// The first counter block holds the packet number and the sender, the least significant
/// byte first, at its start and at its ninth byte, and zeros elsewhere; nothing else of the
/// header comes into it.
pub proof fn law_nonce_holds_packet_and_sender(h: MeshHeader)
    ensures
        ({
            let n = nonce_of(h);
            &&& n.len() == 16
            &&& n[0] + 0x100 * n[1] + 0x1_0000 * n[2] + 0x100_0000 * n[3] == h.packet_id
            &&& n[8] + 0x100 * n[9] + 0x1_0000 * n[10] + 0x100_0000 * n[11] == h.from
            &&& forall|i: int| 4 <= i < 8 || 12 <= i < 16 ==> #[trigger] n[i] == 0
        }),
{
    bytes::law_le_value_of_bytes(h.packet_id as int);
    bytes::law_le_value_of_bytes(h.from as int);
}

/// The cipher works byte by byte: byte `i` is changed by byte `i % 16` of what AES makes of
/// the packet number, the sender and the big-endian number `i / 16` of its block, and by
/// nothing else.
pub proof fn law_cipher_goes_by_blocks(h: MeshHeader, key: Seq<u8>, s: Seq<u8>, i: int)
    requires
        0 <= i < s.len(),
        i / 16 < 0x1_0000_0000,
    ensures
        ciphered(h, key, s).len() == s.len(),
        ciphered(h, key, s)[i] == s[i] ^ aes_block(
            key,
            nonce_of(h).take(12) + bytes::be_bytes(i / 16, 4),
        )[i % 16],
{
    law_counter_keeps_to_its_bytes(h, i / 16);
}

/// Field 1 of a position is its latitude, 2 its longitude, 3 its altitude and 4 its time,
/// which is taken as a number without a sign; reading one leaves the other three as they
/// were.
pub proof fn law_position_fields(parts: PositionParts, v: int)
    requires
        -0x8000_0000 <= v < 0x8000_0000,
    ensures
        ({
            let p = parts.with(1, v);
            &&& p.latitude_i matches Some(x) && x == v
            &&& p.longitude_i == parts.longitude_i && p.altitude == parts.altitude && p.time
                == parts.time
        }),
        ({
            let p = parts.with(2, v);
            &&& p.longitude_i matches Some(x) && x == v
            &&& p.latitude_i == parts.latitude_i && p.altitude == parts.altitude && p.time
                == parts.time
        }),
        ({
            let p = parts.with(3, v);
            &&& p.altitude matches Some(x) && x == v
            &&& p.latitude_i == parts.latitude_i && p.longitude_i == parts.longitude_i && p.time
                == parts.time
        }),
        ({
            let p = parts.with(4, v);
            &&& p.time matches Some(x) && (x - v) % 0x1_0000_0000 == 0
            &&& p.latitude_i == parts.latitude_i && p.longitude_i == parts.longitude_i
                && p.altitude == parts.altitude
        }),
{
}

/// A position whose bytes are at their end is complete exactly if both coordinates were
/// read; altitude and time may be missing. It says what was read, and nothing else.
pub proof fn law_position_needs_its_coordinates(parts: PositionParts)
    ensures
        parts.latitude_i is None || parts.longitude_i is None <==> position_from(
            Seq::empty(),
            parts,
        ) == Err::<Position, DecodeError>(DecodeError::MissingCoords),
        position_from(Seq::empty(), parts) matches Ok(p) ==> {
            &&& parts.latitude_i == Some(p.latitude_i)
            &&& parts.longitude_i == Some(p.longitude_i)
            &&& p.altitude == parts.altitude
            &&& p.time == parts.time
        },
        parts.latitude_i is Some && parts.longitude_i is Some ==> position_from(
            Seq::empty(),
            parts,
        ) is Ok,
{
}

/// A number of a position that is sent in base 128 and is too wide is cut down to its lowest
/// 32 bits.
pub proof fn law_wide_numbers_are_cut(field: int, v: int, rest: Seq<u8>, parts: PositionParts)
    requires
        1 <= field <= 4,
        0 <= v < 0x1_0000_0000_0000_0000,
    ensures
        position_from(protobuf::varint_field(field, v) + rest, parts) == position_from(
            protobuf::varint_field(field, v % 0x1_0000_0000) + rest,
            parts,
        ),
{
    let t = protobuf::tag_bytes(field, protobuf::WIRE_VARINT as int);
    let b = protobuf::varint_bytes(v);
    let c = protobuf::varint_bytes(v % 0x1_0000_0000);
    assert(protobuf::varint_field(field, v) + rest =~= t + (b + rest));
    assert(protobuf::varint_field(field, v % 0x1_0000_0000) + rest =~= t + (c + rest));
    protobuf::law_tag_of_bytes(field, protobuf::WIRE_VARINT as int, b + rest);
    protobuf::law_tag_of_bytes(field, protobuf::WIRE_VARINT as int, c + rest);
    protobuf::law_varint_of_bytes(v, rest);
    protobuf::law_varint_of_bytes(v % 0x1_0000_0000, rest);
}

/// The port number of a message is field 1 in base 128, of which the lowest 32 bits count,
/// and the payload field 2; of several the last one counts, in whatever order they come.
pub proof fn law_message_takes_its_fields(
    v: int,
    b: Seq<u8>,
    rest: Seq<u8>,
    portnum: u32,
    payload: Seq<u8>,
)
    requires
        0 <= v < 0x1_0000_0000_0000_0000,
        b.len() <= usize::MAX,
    ensures
        message_from(protobuf::varint_field(1, v) + rest, portnum, payload) == message_from(
            rest,
            (v % 0x1_0000_0000) as u32,
            payload,
        ),
        message_from(protobuf::delimited_field(2, b) + rest, portnum, payload) == message_from(
            rest,
            portnum,
            b,
        ),
        message_from(Seq::empty(), portnum, payload) == Ok::<(u32, Seq<u8>), DecodeError>(
            (portnum, payload),
        ),
{
    let wv = protobuf::WIRE_VARINT as int;
    let wl = protobuf::WIRE_LEN as int;
    let n = protobuf::varint_bytes(v);
    let first = protobuf::varint_field(1, v) + rest;
    assert(first =~= protobuf::tag_bytes(1, wv) + (n + rest));
    protobuf::law_tag_of_bytes(1, wv, n + rest);
    protobuf::law_varint_of_bytes(v, rest);
    protobuf::lemma_tag_shortens(first);
    let d = protobuf::varint_bytes(b.len() as int) + b;
    let second = protobuf::delimited_field(2, b) + rest;
    assert(second =~= protobuf::tag_bytes(2, wl) + (d + rest));
    protobuf::law_tag_of_bytes(2, wl, d + rest);
    protobuf::law_delimited_of_bytes(b, rest);
    protobuf::lemma_tag_shortens(second);
}

/// A field that is cut off, or that has a wire type which is not read, ends the reading of
/// a position and of a message with the error that says so, whatever was read before.
pub proof fn law_broken_fields_are_refused(
    field: int,
    wire: int,
    rest: Seq<u8>,
    parts: PositionParts,
    portnum: u32,
    payload: Seq<u8>,
)
    requires
        0 <= field < 0x2000_0000,
        0 <= wire < 8,
    ensures
        ({
            let s = protobuf::tag_bytes(field, wire) + rest;
            let cut = (wire == 5 && rest.len() < 4) || (wire == 1 && rest.len() < 8) || (wire == 0
                && protobuf::varint(rest) is None) || (wire == 2 && protobuf::varint(rest) is None);
            &&& cut ==> message_from(s, portnum, payload) == Err::<(u32, Seq<u8>), DecodeError>(
                DecodeError::Truncated,
            )
            &&& cut && !(1 <= field <= 4 && (wire == 1 || wire == 2)) ==> position_from(s, parts)
                == Err::<Position, DecodeError>(DecodeError::Truncated)
            &&& (wire == 3 || wire == 4 || wire == 6 || wire == 7) ==> message_from(
                s,
                portnum,
                payload,
            ) == Err::<(u32, Seq<u8>), DecodeError>(DecodeError::BadWireType(wire as u8))
            &&& (wire == 3 || wire == 4 || wire == 6 || wire == 7 || 1 <= field <= 4 && (wire == 1
                || wire == 2)) ==> position_from(s, parts) == Err::<Position, DecodeError>(
                DecodeError::BadWireType(wire as u8),
            )
        }),
{
    let s = protobuf::tag_bytes(field, wire) + rest;
    protobuf::law_tag_of_bytes(field, wire, rest);
    protobuf::lemma_tag_shortens(s);
}

/// A message that says it is longer than it is, is refused as cut off.
pub proof fn law_long_lengths_are_refused(
    field: int,
    len: int,
    b: Seq<u8>,
    portnum: u32,
    payload: Seq<u8>,
)
    requires
        0 <= field < 0x2000_0000,
        b.len() < len <= usize::MAX,
    ensures
        message_from(
            protobuf::tag_bytes(field, 2) + protobuf::varint_bytes(len) + b,
            portnum,
            payload,
        ) == Err::<(u32, Seq<u8>), DecodeError>(DecodeError::Truncated),
{
    let n = protobuf::varint_bytes(len);
    let s = protobuf::tag_bytes(field, 2) + n + b;
    assert(s =~= protobuf::tag_bytes(field, 2) + (n + b));
    protobuf::law_tag_of_bytes(field, 2, n + b);
    protobuf::law_varint_of_bytes(len, b);
    vstd::arithmetic::div_mod::lemma_small_mod(len as nat, (usize::MAX + 1) as nat);
    protobuf::lemma_tag_shortens(s);
}

/// What comes of a received frame: one without a whole header is too short; a message of
/// any other port than 3 is refused with that port, whatever its payload is; and in a
/// message of port 3 the payload alone decides. The header is the frame's own.
pub proof fn law_decode_by_port(header: Seq<u8>, key: Seq<u8>, portnum: u32, payload: Seq<u8>)
    requires
        header.len() == 16,
        payload.len() <= usize::MAX,
    ensures
        ({
            let h = parsed_header(header)->Ok_0;
            let s = header + ciphered(h, key, message_bytes(portnum, payload));
            &&& forall|k: int|
                0 <= k < 16 ==> decoded_position(#[trigger] header.take(k), key) == Err::<
                    (MeshHeader, Position),
                    DecodeError,
                >(DecodeError::TooShort)
            &&& portnum != 3 ==> decoded_position(s, key) == Err::<
                (MeshHeader, Position),
                DecodeError,
            >(DecodeError::NotPosition(portnum))
            &&& portnum == 3 ==> match (position(payload), decoded_position(s, key)) {
                (Ok(p), Ok(q)) => q.0 == h && q.1 == p,
                (Err(e), Err(d)) => d == e,
                _ => false,
            }
        }),
{
    let h = header_fields(header);
    let plain = message_bytes(portnum, payload);
    let s = header + ciphered(h, key, plain);
    assert(s.subrange(0, 4) =~= header.subrange(0, 4));
    assert(s.subrange(4, 8) =~= header.subrange(4, 8));
    assert(s.subrange(8, 12) =~= header.subrange(8, 12));
    assert(header_fields(s) == h);
    assert(s.skip(16) =~= ciphered(h, key, plain));
    law_cipher_undoes_itself(h, key, plain);
    law_message_of_bytes(portnum, payload);
}

/// Decoding leaves the header of a frame as it is and keeps its length; done twice it gives
/// the frame back. A frame without a whole header is not touched.
pub proof fn law_decoding_keeps_the_header(s: Seq<u8>, key: Seq<u8>)
    ensures
        frame_ciphered(s, key).len() == s.len(),
        s.len() < 16 ==> frame_ciphered(s, key) == s,
        s.len() >= 16 ==> frame_ciphered(s, key).take(16) == s.take(16),
        frame_ciphered(frame_ciphered(s, key), key) == s,
        s.len() >= 16 ==> frame_ciphered(s, key).skip(16) == ciphered(
            parsed_header(s)->Ok_0,
            key,
            s.skip(16),
        ),
{
    if s.len() >= 16 {
        let t = frame_ciphered(s, key);
        assert(t.take(16) =~= s.take(16));
        assert(t.subrange(0, 4) =~= s.subrange(0, 4));
        assert(t.subrange(4, 8) =~= s.subrange(4, 8));
        assert(t.subrange(8, 12) =~= s.subrange(8, 12));
        assert(header_fields(t) == header_fields(s));
        assert(t.skip(16) =~= ciphered(header_fields(s), key, s.skip(16)));
        law_cipher_undoes_itself(header_fields(s), key, s.skip(16));
        assert(frame_ciphered(t, key) =~= s);
    }
}

/// A message that lacks its port number is of port 0, and one that lacks its payload has an
/// empty one, so that neither is taken for a position by what it does not say.
pub proof fn law_missing_fields_are_empty(v: int, b: Seq<u8>)
    requires
        0 <= v < 0x1_0000_0000,
        b.len() <= usize::MAX,
    ensures
        message(Seq::empty()) == Ok::<(u32, Seq<u8>), DecodeError>((0u32, Seq::<u8>::empty())),
        message(protobuf::delimited_field(2, b)) == Ok::<(u32, Seq<u8>), DecodeError>((0u32, b)),
        message(protobuf::varint_field(1, v)) == Ok::<(u32, Seq<u8>), DecodeError>(
            (v as u32, Seq::<u8>::empty()),
        ),
        position_message(protobuf::delimited_field(2, b)) == Err::<Position, DecodeError>(
            DecodeError::NotPosition(0),
        ),
        position(Seq::empty()) == Err::<Position, DecodeError>(DecodeError::MissingCoords),
{
    let none = Seq::<u8>::empty();
    law_message_takes_its_fields(v, b, none, 0, none);
    assert(protobuf::varint_field(1, v) + none =~= protobuf::varint_field(1, v));
    assert(protobuf::delimited_field(2, b) + none =~= protobuf::delimited_field(2, b));
    law_message_takes_its_fields(v, b, none, v as u32, none);
    law_message_takes_its_fields(v, b, none, 0, b);
}

} // verus!
