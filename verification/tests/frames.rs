use nostos::frame::{crc8, FrameError, NostosFrame, FLAG_FIX_VALID, FRAME_LEN, PROTOCOL_VERSION};
use nostos::nav::GeoPoint;
use nostos::radio;

#[test]
fn roundtrip() {
    let f = NostosFrame::new(42, 430_621_000, 1_413_544_000, 1_700_000_000, true);
    let bytes = f.encode();
    assert_eq!(bytes.len(), FRAME_LEN);
    let g = NostosFrame::decode(&bytes).unwrap();
    assert_eq!(f, g);
    assert!(g.has_fix());
    assert_eq!(g.seq, 42);
}

#[test]
fn geopoint_conversion() {
    let f = NostosFrame::new(0, 430_621_000, 1_413_544_000, 0, true);
    let p = f.geopoint();
    assert!((f64::from(p.lat_e7) / 1e7 - 43.0621).abs() < 1e-6);
    assert!((f64::from(p.lon_e7) / 1e7 - 141.3544).abs() < 1e-6);
    assert_eq!(p, GeoPoint::from_e7(430_621_000, 1_413_544_000));
}

#[test]
fn negative_coords() {
    let f = NostosFrame::new(1, -335_000_000, -705_000_000, 123, false);
    let g = NostosFrame::decode(&f.encode()).unwrap();
    assert_eq!(g.lat_e7, -335_000_000);
    assert_eq!(g.lon_e7, -705_000_000);
    assert!(!g.has_fix());
}

#[test]
fn detects_corruption() {
    let mut bytes = NostosFrame::new(7, 1, 2, 3, true).encode();
    bytes[5] ^= 0xFF;
    assert_eq!(NostosFrame::decode(&bytes), Err(FrameError::BadCrc));
}

#[test]
fn too_short() {
    assert_eq!(NostosFrame::decode(&[0u8; 8]), Err(FrameError::TooShort));
}

#[test]
fn bad_version() {
    let mut bytes = NostosFrame::new(0, 0, 0, 0, false).encode();
    bytes[0] = 0xFE;
    bytes[15] = crc8(&bytes[0..15]);
    assert_eq!(NostosFrame::decode(&bytes), Err(FrameError::BadVersion(0xFE)));
}

#[test]
fn crc8_known_vector() {
    assert_eq!(crc8(b"123456789"), 0xF4);
}

#[test]
fn crc8_of_nothing_is_zero() {
    assert_eq!(crc8(&[]), 0);
    assert_eq!(crc8(&[0x01]), 0x07);
}

#[test]
fn frame_layout_is_little_endian() {
    let f = NostosFrame::new(5, 0x0102_0304, -2, 0xA0B0_C0D0, true);
    let b = f.encode();
    assert_eq!(
        &b[0..15],
        &[
            PROTOCOL_VERSION, FLAG_FIX_VALID, 5, 0x04, 0x03, 0x02, 0x01, 0xFE, 0xFF, 0xFF, 0xFF,
            0xD0, 0xC0, 0xB0, 0xA0
        ]
    );
    assert_eq!(b[15], crc8(&b[0..15]));
}

#[test]
fn bytes_after_a_frame_do_not_count() {
    let f = NostosFrame::new(9, i32::MIN, i32::MAX, u32::MAX, true);
    let mut v = f.encode().to_vec();
    v.extend_from_slice(&[1, 2, 3]);
    assert_eq!(NostosFrame::decode(&v), Ok(f));
}

#[test]
fn every_single_corrupted_byte_is_noticed() {
    let b = NostosFrame::new(200, -1, 77, 1_600_000_000, true).encode();
    for at in 0..FRAME_LEN {
        for byte in 0..=255u8 {
            if byte != b[at] {
                let mut c = b;
                c[at] = byte;
                assert_eq!(NostosFrame::decode(&c), Err(FrameError::BadCrc));
            }
        }
    }
}

#[test]
fn decoded_bytes_encode_to_themselves() {
    let b = NostosFrame::new(3, -123_456_789, 987_654_321, 42, false).encode();
    assert_eq!(NostosFrame::decode(&b).unwrap().encode(), b);
}

#[test]
fn a_bad_checksum_is_told_before_a_bad_version() {
    let mut b = NostosFrame::new(0, 0, 0, 0, false).encode();
    b[0] = 2;
    assert_eq!(NostosFrame::decode(&b), Err(FrameError::BadCrc));
}

#[test]
fn home_flag_is_a_mask() {
    let mut f = NostosFrame::new(0, 0, 0, 0, true);
    assert!(!f.is_home(0x02));
    f.flags |= 0x02;
    assert!(f.is_home(0x02));
    assert!(f.has_fix());
}

#[test]
fn radio_stays_within_its_certificate() {
    assert_eq!(radio::TX_FREQ_HZ, 923_000_000);
    assert_eq!(radio::BW_HZ, 125_000);
    assert_eq!(radio::SF, 9);
    assert_eq!(radio::CR, 5);
    assert_eq!(radio::SYNC_WORD, 0x3A);
    assert_eq!(radio::TX_POWER_DBM, 6);
    assert_eq!(radio::TX_INTERVAL_SECS, 60);
}

#[test]
fn first_bytes_of_a_known_frame() {
    let f = NostosFrame::new(55, 350_000_000 + 55 * 4500, 1_350_000_000 + 55 * 5500, 0, true);
    assert_eq!(f.encode()[0..4], [0x01, 0x01, 0x37, 0x4c]);
}
