use aes::cipher::generic_array::GenericArray;
use aes::cipher::{BlockEncrypt, KeyInit};
use aes::Aes128;
use nostos::mesh::{
    decode_position, decrypt_in_place, Data, DecodeError, MeshHeader, Position,
    DEFAULT_CHANNEL_KEY, HEADER_LEN, PORTNUM_POSITION_APP,
};
use nostos::protobuf::{WIRE_I32, WIRE_I64, WIRE_LEN, WIRE_VARINT};

fn build_header(dest: u32, from: u32, packet_id: u32) -> [u8; 16] {
    let mut h = [0u8; 16];
    h[0..4].copy_from_slice(&dest.to_le_bytes());
    h[4..8].copy_from_slice(&from.to_le_bytes());
    h[8..12].copy_from_slice(&packet_id.to_le_bytes());
    h[12] = 0x03;
    h[13] = 0x08;
    h
}

fn put_varint(out: &mut Vec<u8>, mut v: u64) {
    loop {
        let mut b = (v & 0x7f) as u8;
        v >>= 7;
        if v != 0 {
            b |= 0x80;
        }
        out.push(b);
        if v == 0 {
            break;
        }
    }
}

fn tag(out: &mut Vec<u8>, field: u32, wire: u8) {
    put_varint(out, ((field << 3) | wire as u32) as u64);
}

fn position_bytes() -> Vec<u8> {
    let mut p = Vec::new();
    tag(&mut p, 1, WIRE_I32);
    p.extend(&430_621_000i32.to_le_bytes());
    tag(&mut p, 2, WIRE_I32);
    p.extend(&1_413_544_000i32.to_le_bytes());
    p
}

fn message(portnum: u64, payload: &[u8]) -> Vec<u8> {
    let mut d = Vec::new();
    tag(&mut d, 1, WIRE_VARINT);
    put_varint(&mut d, portnum);
    tag(&mut d, 2, WIRE_LEN);
    put_varint(&mut d, payload.len() as u64);
    d.extend(payload);
    d
}

fn sent(message: &[u8]) -> Vec<u8> {
    let raw = build_header(0xFFFF_FFFF, 0x1234_5678, 0x0000_ABCD);
    let header = MeshHeader::parse(&raw).unwrap();
    let mut frame = raw.to_vec();
    frame.extend(message);
    decrypt_in_place(&header, &DEFAULT_CHANNEL_KEY, &mut frame[HEADER_LEN..]);
    frame
}

#[test]
fn header_roundtrip() {
    let raw = build_header(0xFFFF_FFFF, 0x1234_5678, 0x0000_ABCD);
    let h = MeshHeader::parse(&raw).unwrap();
    assert_eq!(h.dest, 0xFFFF_FFFF);
    assert_eq!(h.from, 0x1234_5678);
    assert_eq!(h.packet_id, 0x0000_ABCD);
    assert_eq!(h.flags, 0x03);
    assert_eq!(h.channel_hash, 0x08);
}

#[test]
fn nonce_layout() {
    let h = MeshHeader::parse(&build_header(0, 0x1122_3344, 0x00AA_BB01)).unwrap();
    let n = h.nonce();
    assert_eq!(&n[0..8], &[0x01, 0xBB, 0xAA, 0x00, 0x00, 0x00, 0x00, 0x00]);
    assert_eq!(&n[8..12], &[0x44, 0x33, 0x22, 0x11]);
    assert_eq!(&n[12..16], &[0, 0, 0, 0]);
}

#[test]
fn header_too_short() {
    assert_eq!(MeshHeader::parse(&[0u8; 8]), Err(DecodeError::TooShort));
}

#[test]
fn position_decode_sfixed32() {
    let mut p = Vec::new();
    tag(&mut p, 1, WIRE_I32);
    p.extend(&430_621_000i32.to_le_bytes());
    tag(&mut p, 2, WIRE_I32);
    p.extend(&1_413_544_000i32.to_le_bytes());
    tag(&mut p, 3, WIRE_VARINT);
    put_varint(&mut p, 120);
    tag(&mut p, 4, WIRE_I32);
    p.extend(&1_700_000_000u32.to_le_bytes());

    let pos = Position::parse(p.as_slice()).unwrap();
    assert_eq!(pos.latitude_i, 430_621_000);
    assert_eq!(pos.longitude_i, 1_413_544_000);
    assert_eq!(pos.altitude, Some(120));
    assert_eq!(pos.time, Some(1_700_000_000));
}

#[test]
fn position_missing_coords() {
    let mut p = Vec::new();
    tag(&mut p, 3, WIRE_VARINT);
    put_varint(&mut p, 5);
    assert_eq!(Position::parse(p.as_slice()), Err(DecodeError::MissingCoords));
}

#[test]
fn end_to_end_decrypt_and_decode() {
    let mut pos_buf = Vec::new();
    tag(&mut pos_buf, 1, WIRE_I32);
    pos_buf.extend(&430_621_000i32.to_le_bytes());
    tag(&mut pos_buf, 2, WIRE_I32);
    pos_buf.extend(&1_413_544_000i32.to_le_bytes());

    let mut data_buf = Vec::new();
    tag(&mut data_buf, 1, WIRE_VARINT);
    put_varint(&mut data_buf, PORTNUM_POSITION_APP as u64);
    tag(&mut data_buf, 2, WIRE_LEN);
    put_varint(&mut data_buf, pos_buf.len() as u64);
    data_buf.extend(pos_buf.as_slice());

    let header_raw = build_header(0xFFFF_FFFF, 0x1234_5678, 0x0000_ABCD);
    let header = MeshHeader::parse(&header_raw).unwrap();
    let mut frame = Vec::new();
    frame.extend(&header_raw);
    let enc_start = frame.len();
    frame.extend(data_buf.as_slice());
    decrypt_in_place(&header, &DEFAULT_CHANNEL_KEY, &mut frame.as_mut_slice()[enc_start..]);

    let (h, pos) = decode_position(frame.as_mut_slice(), &DEFAULT_CHANNEL_KEY).unwrap();
    assert_eq!(h.from, 0x1234_5678);
    assert_eq!(pos.latitude_i, 430_621_000);
    assert_eq!(pos.longitude_i, 1_413_544_000);
}

#[test]
fn keystream_is_that_of_aes() {
    let h = MeshHeader::parse(&[0u8; 16]).unwrap();
    let mut data = [0u8; 17];
    decrypt_in_place(&h, &[0u8; 16], &mut data);
    assert_eq!(
        &data[0..16],
        &[
            0x66, 0xe9, 0x4b, 0xd4, 0xef, 0x8a, 0x2c, 0x3b, 0x88, 0x4c, 0xfa, 0x59, 0xca, 0x34,
            0x2b, 0x2e
        ]
    );
    assert_eq!(data[16], 0x58);
}

#[test]
fn the_counter_is_the_end_of_its_block() {
    let h = MeshHeader::parse(&build_header(0, 0x1122_3344, 0x00AA_BB01)).unwrap();
    let key = [7u8; 16];
    let mut data = [0u8; 40];
    decrypt_in_place(&h, &key, &mut data);
    for (j, chunk) in data.chunks(16).enumerate() {
        let mut block = h.nonce();
        block[12..16].copy_from_slice(&(j as u32).to_be_bytes());
        let mut b = GenericArray::from(block);
        Aes128::new(&GenericArray::from(key)).encrypt_block(&mut b);
        assert_eq!(chunk, &b[..chunk.len()]);
    }
}

#[test]
fn keystream_depends_on_key_packet_and_sender() {
    let a = MeshHeader::parse(&build_header(0, 1, 2)).unwrap();
    let b = MeshHeader::parse(&build_header(0, 1, 3)).unwrap();
    let c = MeshHeader::parse(&build_header(0, 2, 2)).unwrap();
    let mut outs = Vec::new();
    for (h, key) in [(a, [7u8; 16]), (b, [7u8; 16]), (c, [7u8; 16]), (a, [8u8; 16])] {
        let mut d = [0u8; 16];
        decrypt_in_place(&h, &key, &mut d);
        assert!(!outs.contains(&d));
        outs.push(d);
    }
}

#[test]
fn decrypting_twice_changes_nothing() {
    let h = MeshHeader::parse(&build_header(1, 2, 3)).unwrap();
    let plain: Vec<u8> = (0..100u8).collect();
    let mut data = plain.clone();
    decrypt_in_place(&h, &DEFAULT_CHANNEL_KEY, &mut data);
    assert_ne!(data, plain);
    decrypt_in_place(&h, &DEFAULT_CHANNEL_KEY, &mut data);
    assert_eq!(data, plain);
}

#[test]
fn decoding_leaves_the_payload_decrypted() {
    let m = message(3, &position_bytes());
    let mut frame = sent(&m);
    let header = frame[0..HEADER_LEN].to_vec();
    assert!(decode_position(&mut frame, &DEFAULT_CHANNEL_KEY).is_ok());
    assert_eq!(&frame[0..HEADER_LEN], header.as_slice());
    assert_eq!(&frame[HEADER_LEN..], m.as_slice());
}

#[test]
fn a_short_frame_is_left_alone() {
    let mut frame = [0x55u8; 15];
    assert_eq!(decode_position(&mut frame, &DEFAULT_CHANNEL_KEY), Err(DecodeError::TooShort));
    assert_eq!(frame, [0x55u8; 15]);
}

#[test]
fn another_application_is_refused() {
    let mut frame = sent(&message(1, b"hello"));
    assert_eq!(decode_position(&mut frame, &DEFAULT_CHANNEL_KEY), Err(DecodeError::NotPosition(1)));
}

#[test]
fn an_empty_message_has_port_zero() {
    let d = Data::parse(&[]).unwrap();
    assert_eq!(d.portnum, 0);
    assert!(d.payload.is_empty());
}

#[test]
fn unknown_fields_are_passed_over() {
    let mut p = Vec::new();
    tag(&mut p, 9, WIRE_I64);
    p.extend(&[1, 2, 3, 4, 5, 6, 7, 8]);
    p.extend(position_bytes());
    tag(&mut p, 10, WIRE_LEN);
    put_varint(&mut p, 3);
    p.extend(b"abc");
    tag(&mut p, 11, WIRE_I32);
    p.extend(&[9, 9, 9, 9]);
    tag(&mut p, 12, WIRE_VARINT);
    put_varint(&mut p, u64::MAX);
    let pos = Position::parse(&p).unwrap();
    assert_eq!(pos.latitude_i, 430_621_000);
    assert_eq!(pos.altitude, None);
    assert_eq!(pos.time, None);
}

#[test]
fn the_last_of_several_fields_counts() {
    let mut p = position_bytes();
    tag(&mut p, 1, WIRE_I32);
    p.extend(&(-7i32).to_le_bytes());
    assert_eq!(Position::parse(&p).unwrap().latitude_i, -7);
}

#[test]
fn a_negative_number_in_base_128_is_signed() {
    let mut p = position_bytes();
    tag(&mut p, 3, WIRE_VARINT);
    put_varint(&mut p, (-12i64) as u64);
    tag(&mut p, 4, WIRE_VARINT);
    put_varint(&mut p, (-1i64) as u64);
    let pos = Position::parse(&p).unwrap();
    assert_eq!(pos.altitude, Some(-12));
    assert_eq!(pos.time, Some(u32::MAX));
}

#[test]
fn wire_types_that_are_not_read_are_refused() {
    let mut p = Vec::new();
    tag(&mut p, 1, WIRE_LEN);
    put_varint(&mut p, 0);
    assert_eq!(Position::parse(&p), Err(DecodeError::BadWireType(2)));
    assert_eq!(Data::parse(&[(5 << 3) | 3]), Err(DecodeError::BadWireType(3)));
}

#[test]
fn truncated_messages_are_refused() {
    assert_eq!(Data::parse(&[0x08]), Err(DecodeError::Truncated));
    assert_eq!(Data::parse(&[0x12, 0x05, 1, 2]), Err(DecodeError::Truncated));
    assert_eq!(Data::parse(&[0x80]), Err(DecodeError::Truncated));
    assert_eq!(Position::parse(&[0x0d, 1, 2, 3]), Err(DecodeError::Truncated));
    let mut one = position_bytes();
    one.truncate(5);
    assert_eq!(Position::parse(&one), Err(DecodeError::MissingCoords));
}

#[test]
fn a_number_has_at_most_ten_bytes() {
    let mut ten = vec![0x08];
    ten.extend(&[0x80, 0x80, 0x80, 0x80, 0x80, 0x80, 0x80, 0x80, 0x80, 0x01]);
    assert_eq!(Data::parse(&ten).unwrap().portnum, 0);
    let mut eleven = vec![0x08];
    eleven.extend(&[0x80; 10]);
    eleven.push(0x01);
    assert_eq!(Data::parse(&eleven), Err(DecodeError::Truncated));
    let mut top = vec![0x08];
    top.extend(&[0xFF, 0xFF, 0xFF, 0xFF, 0xFF, 0xFF, 0xFF, 0xFF, 0xFF, 0x7F]);
    assert_eq!(Data::parse(&top).unwrap().portnum, u32::MAX);
}

#[test]
fn unknown_fields_of_a_message_are_passed_over() {
    let mut m = Vec::new();
    tag(&mut m, 3, WIRE_VARINT);
    put_varint(&mut m, 1);
    tag(&mut m, 1, WIRE_I32);
    m.extend(&[9, 9, 9, 9]);
    m.extend(message(3, b"abc"));
    tag(&mut m, 5, WIRE_I32);
    m.extend(&[1, 2, 3, 4]);
    tag(&mut m, 9, WIRE_I64);
    m.extend(&[1, 2, 3, 4, 5, 6, 7, 8]);
    tag(&mut m, 2, WIRE_VARINT);
    put_varint(&mut m, 300);
    let d = Data::parse(&m).unwrap();
    assert_eq!(d.portnum, 3);
    assert_eq!(d.payload, b"abc");
}
