use nostos::nav::{GeoPoint, Trail};

#[test]
fn meshtastic_int_conversion() {
    let p = GeoPoint::from_meshtastic_i(430_621_000, 1_413_544_000);
    assert!((f64::from(p.lat_e7) / 1e7 - 43.0621).abs() <= 1e-6);
    assert!((f64::from(p.lon_e7) / 1e7 - 141.3544).abs() <= 1e-6);
}

#[test]
fn trail_ring_buffer_overwrites_oldest() {
    let mut t: Trail<3> = Trail::new();
    assert!(t.is_empty());
    t.push(GeoPoint::from_e7(0, 0));
    t.push(GeoPoint::from_e7(0, 10_000_000));
    t.push(GeoPoint::from_e7(0, 20_000_000));
    t.push(GeoPoint::from_e7(0, 30_000_000));
    assert_eq!(t.len(), 3);
    assert_eq!(t.oldest(), Some(GeoPoint::from_e7(0, 10_000_000)));
    assert_eq!(t.newest(), Some(GeoPoint::from_e7(0, 30_000_000)));
    let pts = t.iter();
    assert_eq!(pts.len(), 3);
    assert_eq!(pts[0], GeoPoint::from_e7(0, 10_000_000));
    assert_eq!(pts[2], GeoPoint::from_e7(0, 30_000_000));
}

#[test]
fn an_empty_trail_has_no_ends() {
    let t: Trail<4> = Trail::default();
    assert_eq!(t.oldest(), None);
    assert_eq!(t.newest(), None);
    assert!(t.iter().is_empty());
    assert!(t.legs().is_empty());
    assert_eq!(t.homing_leg(GeoPoint::from_e7(1, 2)), None);
}

#[test]
fn a_trail_keeps_the_newest_positions_in_order() {
    let mut t: Trail<5> = Trail::new();
    for i in 0..37 {
        t.push(GeoPoint::from_e7(i, -i));
        let from = if i < 5 { 0 } else { i - 4 };
        let want: Vec<GeoPoint> = (from..=i).map(|k| GeoPoint::from_e7(k, -k)).collect();
        assert_eq!(t.iter(), want);
        assert_eq!(t.get(0), Some(want[0]));
        assert_eq!(t.get(want.len()), None);
    }
}

#[test]
fn legs_join_neighbours() {
    let mut t: Trail<3> = Trail::new();
    let p = |k: i32| GeoPoint::from_e7(k, k);
    for k in 0..5 {
        t.push(p(k));
    }
    assert_eq!(t.legs(), vec![(p(2), p(3)), (p(3), p(4))]);
    assert_eq!(t.homing_leg(p(9)), Some((p(4), p(9))));
}

#[test]
fn a_trail_of_one_position() {
    let mut t: Trail<1> = Trail::new();
    t.push(GeoPoint::from_e7(1, 1));
    t.push(GeoPoint::from_e7(2, 2));
    assert_eq!(t.iter(), vec![GeoPoint::from_e7(2, 2)]);
    assert_eq!(t.oldest(), t.newest());
}
