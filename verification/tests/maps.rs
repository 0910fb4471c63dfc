use embedded_graphics::draw_target::DrawTarget;
use embedded_graphics::geometry::{OriginDimensions, Point, Size};
use embedded_graphics::mono_font::iso_8859_1::{FONT_10X20, FONT_9X15_BOLD};
use embedded_graphics::mono_font::MonoTextStyle;
use embedded_graphics::pixelcolor::BinaryColor;
use embedded_graphics::text::{Alignment, Text};
use embedded_graphics::{Drawable, Pixel};
use nostos::draw::{
    anchor, compass8, place, render_trail, Homing, LastRx, Status, SCALE_M_PER_PX,
};
use nostos::label::{draw_label, Align, Font};
use nostos::nav::{GeoPoint, Trail};
use nostos::page::Page;
use nostos::shapes::{draw_dashes, draw_line, draw_ring, fill_disk, fill_row};

const W: i32 = 480;
const H: i32 = 800;

/// A sheet drawn on point by point.
struct Sheet {
    black: Vec<bool>,
}

impl Sheet {
    fn new() -> Self {
        Sheet { black: vec![false; (W * H) as usize] }
    }

    fn set(&mut self, x: i32, y: i32, black: bool) {
        if x >= 0 && y >= 0 && x < W && y < H {
            self.black[(y * W + x) as usize] = black;
        }
    }

    fn set_map(&mut self, x: i32, y: i32, black: bool) {
        if x > 0 && x < 479 && y > 66 && y < 688 {
            self.set(x, y, black);
        }
    }

    fn walk(x0: i32, y0: i32, x1: i32, y1: i32) -> Vec<(i32, i32)> {
        let dx = (x1 - x0).abs();
        let dy = -(y1 - y0).abs();
        let sx = if x0 < x1 { 1 } else { -1 };
        let sy = if y0 < y1 { 1 } else { -1 };
        let mut err = dx + dy;
        let (mut x, mut y) = (x0, y0);
        let mut out = Vec::new();
        loop {
            out.push((x, y));
            if x == x1 && y == y1 {
                return out;
            }
            let e2 = 2 * err;
            if e2 >= dy {
                err += dy;
                x += sx;
            }
            if e2 <= dx {
                err += dx;
                y += sy;
            }
        }
    }

    fn line(&mut self, x0: i32, y0: i32, x1: i32, y1: i32, map: bool) {
        for (x, y) in Self::walk(x0, y0, x1, y1) {
            if map {
                self.set_map(x, y, true);
            } else {
                self.set(x, y, true);
            }
        }
    }

    fn dashes(&mut self, x0: i32, y0: i32, x1: i32, y1: i32) {
        for (k, (x, y)) in Self::walk(x0, y0, x1, y1).into_iter().enumerate() {
            if k % 11 < 6 {
                for (a, b) in [(0, 0), (1, 0), (0, 1), (1, 1)] {
                    self.set_map(x + a, y + b, true);
                }
            }
        }
    }

    fn disk(&mut self, cx: i32, cy: i32, r: i32, black: bool) {
        for dy in -r..=r {
            for dx in -r..=r {
                if dx * dx + dy * dy <= r * r {
                    self.set_map(cx + dx, cy + dy, black);
                }
            }
        }
    }

    fn ring(&mut self, cx: i32, cy: i32, r: i32) {
        for dy in -r..=r {
            for dx in -r..=r {
                let d2 = dx * dx + dy * dy;
                if d2 <= r * r && d2 >= (r - 2) * (r - 2) {
                    self.set_map(cx + dx, cy + dy, true);
                }
            }
        }
    }

    fn house(&mut self, cx: i32, cy: i32) {
        for dy in -9..=14i32 {
            let hw = if dy < 3 { ((dy + 9) * 11) / 12 } else { 11 };
            for dx in -hw..=hw {
                self.set_map(cx + dx, cy + dy, false);
            }
        }
        for o in 0..2i32 {
            self.line(cx - 11, cy + 3 + o, cx, cy - 9 + o, true);
            self.line(cx + 11, cy + 3 + o, cx, cy - 9 + o, true);
            self.line(cx - 11 + o, cy + 3, cx - 11 + o, cy + 14, true);
            self.line(cx + 11 - o, cy + 3, cx + 11 - o, cy + 14, true);
            self.line(cx - 11, cy + 14 - o, cx + 11, cy + 14 - o, true);
        }
    }

    fn text(&mut self, s: &str, x: i32, y: i32, large: bool, a: Alignment) {
        let font = if large { &FONT_10X20 } else { &FONT_9X15_BOLD };
        let style = MonoTextStyle::new(font, BinaryColor::On);
        Text::with_alignment(s, Point::new(x, y), style, a).draw(self).unwrap();
    }

    fn same_as(&self, page: &Page) -> bool {
        (0..H).all(|y| {
            (0..W).all(|x| {
                self.black[(y * W + x) as usize] == page.is_black(i64::from(x), i64::from(y))
            })
        })
    }
}

impl OriginDimensions for Sheet {
    fn size(&self) -> Size {
        Size::new(W as u32, H as u32)
    }
}

impl DrawTarget for Sheet {
    type Color = BinaryColor;
    type Error = core::convert::Infallible;

    fn draw_iter<I>(&mut self, pixels: I) -> Result<(), Self::Error>
    where
        I: IntoIterator<Item = Pixel<Self::Color>>,
    {
        for Pixel(p, c) in pixels {
            if c == BinaryColor::On {
                self.set(p.x, p.y, true);
            }
        }
        Ok(())
    }
}

/// The frame around the map, with the lines of text given.
fn frame(s: &mut Sheet, clock: &str, ago: &str, fresh: bool) {
    s.text("NOSTOS", 12, 42, true, Alignment::Left);
    s.text(clock, 468, 30, false, Alignment::Right);
    s.text(ago, 468, 54, false, Alignment::Right);
    if fresh {
        for dy in -3..=3i32 {
            for dx in -3..=3i32 {
                if dx * dx + dy * dy <= 9 {
                    s.set(372 + dx, 49 + dy, true);
                }
            }
        }
    }
    s.line(0, 63, 479, 63, false);
    s.line(0, 64, 479, 64, false);
    let mut gx = 239 % 80;
    while gx < 479 {
        if gx > 0 {
            s.line(gx, 67, gx, 687, true);
        }
        gx += 80;
    }
    let mut gy = 377 % 80;
    while gy < 688 {
        if gy > 66 {
            s.line(1, gy, 478, gy, true);
        }
        gy += 80;
    }
}

fn furniture(s: &mut Sheet, scale: &str) {
    for o in 0..2 {
        s.line(44 + o, 120, 44 + o, 96, true);
    }
    for dy in -18..=-8i32 {
        let hw = ((dy + 18) * 5) / 10;
        for dx in -hw..=hw {
            s.set_map(44 + dx, 104 + dy, true);
        }
    }
    s.text("N", 44, 140, false, Alignment::Center);
    for o in 0..2 {
        s.line(40, 668 + o, 120, 668 + o, true);
    }
    s.line(40, 663, 40, 674, true);
    s.line(120, 663, 120, 674, true);
    s.text(scale, 80, 658, false, Alignment::Center);
}

fn footer(s: &mut Sheet, l1: &str, l2: &str, l3: &str) {
    s.line(0, 688, 479, 688, false);
    s.line(0, 689, 479, 689, false);
    s.text(l1, 16, 718, true, Alignment::Left);
    s.text(l2, 16, 744, false, Alignment::Left);
    s.text(l3, 16, 772, true, Alignment::Left);
}

fn nothing_yet() -> Status {
    Status {
        last: None,
        age_secs: None,
        m_per_px: 2,
        home: None,
        homing: None,
        radio_ok: true,
        vbat_mv: None,
        view_center: None,
    }
}

#[test]
fn the_map_while_waiting() {
    let mut s = Sheet::new();
    frame(&mut s, "--:-- · --%", "RX ---", false);
    furniture(&mut s, "160 m");
    s.text("WAITING FOR C6L BEACON...", 240, 377, true, Alignment::Center);
    footer(&mut s, "C6L  ---------  ----------", "SEQ --- · N 0 · LAST ---", "HOME not received");
    let mut page = Page::new();
    page.set_px(100, 100, true);
    render_trail(&mut page, &[], None, &nothing_yet());
    assert!(s.same_as(&page));
}

#[test]
fn the_map_with_a_radio_that_is_silent() {
    let mut s = Sheet::new();
    frame(&mut s, "--:-- · 69%", "RX ---", false);
    s.text("SX1262 NOT RESPONDING", 240, 98, true, Alignment::Center);
    furniture(&mut s, "8.0 km");
    s.text("WAITING FOR C6L BEACON...", 240, 377, true, Alignment::Center);
    footer(&mut s, "C6L  ---------  ----------", "SEQ --- · N 0 · LAST ---", "HOME not received");
    let mut page = Page::new();
    let st = Status { radio_ok: false, vbat_mv: Some(3926), m_per_px: 100, ..nothing_yet() };
    render_trail(&mut page, &[], None, &st);
    assert!(s.same_as(&page));
}

#[test]
fn the_map_of_a_trail_without_a_start() {
    let places = [(150, 500), (200, 430), (260, 440), (239, 377)];
    let mut s = Sheet::new();
    frame(&mut s, "09:00 · 100%", "RX 1:30 AGO", true);
    furniture(&mut s, "80 m");
    for k in 1..places.len() {
        let (a, b) = (places[k - 1], places[k]);
        s.dashes(a.0, a.1, b.0, b.1);
    }
    s.house(150, 500);
    s.text("1", 150 - 16, 505, false, Alignment::Right);
    for k in 1..3 {
        let (x, y) = places[k];
        s.disk(x, y, 6, false);
        s.ring(x, y, 7);
        s.text(&format!("{}", k + 1), x + 13, y + 5, false, Alignment::Left);
    }
    s.disk(239, 377, 10, true);
    s.disk(239, 377, 4, false);
    s.text("4", 252, 382, false, Alignment::Left);
    let l2 = "SEQ 7 · FIX 1 · N 4 · LAST 1:30 · -56 dBm 11 dB";
    footer(&mut s, "C6L  N35.02475  E135.03025", l2, "HOME not received");
    let st = Status {
        last: Some(LastRx {
            seq: 7,
            fix: true,
            lat_e7: 350_247_500,
            lon_e7: 1_350_302_500,
            time_unix: 86_400 * 19_000 - 90,
            rssi: -56,
            snr: 11,
        }),
        age_secs: Some(90),
        m_per_px: 1,
        vbat_mv: Some(4500),
        ..nothing_yet()
    };
    let mut page = Page::new();
    render_trail(&mut page, &places, Some((150, 500)), &st);
    assert!(s.same_as(&page));
}

#[test]
fn the_map_of_a_journey_from_a_known_start() {
    let places = [(-30, 100), (239, 377)];
    let mut s = Sheet::new();
    frame(&mut s, "--:-- · --%", "RX 2:03 AGO", false);
    furniture(&mut s, "1.6 km");
    s.dashes(-30, 100, 239, 377);
    s.house(470, 680);
    s.disk(-30, 100, 6, false);
    s.ring(-30, 100, 7);
    s.text("1", -17, 105, false, Alignment::Left);
    s.disk(239, 377, 10, true);
    s.disk(239, 377, 4, false);
    s.text("2", 252, 382, false, Alignment::Left);
    let l2 = "SEQ 255 · FIX 0 · N 2 · LAST 2:03 · -120 dBm -20 dB";
    footer(&mut s, "C6L  S33.50000  W70.50000", l2, "HOME 1.23 km · 225°SW");
    let st = Status {
        last: Some(LastRx {
            seq: 255,
            fix: false,
            lat_e7: -335_000_000,
            lon_e7: -705_000_000,
            time_unix: 0,
            rssi: -120,
            snr: -20,
        }),
        age_secs: Some(2 * 3600 + 3 * 60 + 59),
        m_per_px: 20,
        home: Some(GeoPoint::from_e7(0, 0)),
        homing: Some(Homing { distance_m: 1239, half_deg: 450 }),
        vbat_mv: Some(0),
        ..nothing_yet()
    };
    let mut page = Page::new();
    render_trail(&mut page, &places, Some((470, 680)), &st);
    assert!(s.same_as(&page));
}

#[test]
fn a_long_line_below_the_map_is_cut_off() {
    let st = Status {
        last: Some(LastRx {
            seq: 255,
            fix: true,
            lat_e7: 0,
            lon_e7: 0,
            time_unix: 0,
            rssi: -120,
            snr: -20,
        }),
        age_secs: Some(59 * 60 + 59),
        home: Some(GeoPoint::from_e7(0, 0)),
        homing: Some(Homing { distance_m: 999, half_deg: 719 }),
        ..nothing_yet()
    };
    let mut page = Page::new();
    let places = vec![(239, 377); 100];
    render_trail(&mut page, &places, None, &st);
    let mut s = Sheet::new();
    footer(
        &mut s,
        "C6L  N0.00000  E0.00000",
        "SEQ 255 · FIX 1 · N 100 · LAST 59:59 · -120 dBm -20 ",
        "HOME 999 m · 359°N",
    );
    for y in 690..H {
        for x in 0..W {
            assert_eq!(s.black[(y * W + x) as usize], page.is_black(x as i64, y as i64));
        }
    }
}

#[test]
fn a_moved_map_without_positions_has_only_its_sign() {
    let mut s = Sheet::new();
    frame(&mut s, "--:-- · --%", "RX ---", false);
    furniture(&mut s, "160 m");
    s.text("PAN", 468, 90, false, Alignment::Right);
    footer(&mut s, "C6L  ---------  ----------", "SEQ --- · N 0 · LAST ---", "HOME not received");
    let mut page = Page::new();
    let st = Status { view_center: Some(GeoPoint::from_e7(1, 1)), ..nothing_yet() };
    render_trail(&mut page, &[], None, &st);
    assert!(s.same_as(&page));
}

#[test]
fn the_sign_of_a_moved_map_is_over_the_trail() {
    let mut s = Sheet::new();
    frame(&mut s, "--:-- · --%", "RX 1:01 AGO", false);
    furniture(&mut s, "160 m");
    s.house(450, 85);
    s.disk(450, 85, 10, true);
    s.disk(450, 85, 4, false);
    s.text("1", 463, 90, false, Alignment::Left);
    s.text("PAN", 468, 90, false, Alignment::Right);
    footer(&mut s, "C6L  ---------  ----------", "SEQ --- · N 0 · LAST ---", "HOME not received");
    let mut page = Page::new();
    let home = Some(GeoPoint::from_e7(3, 3));
    let moved = Some(GeoPoint::from_e7(1, 1));
    let st = Status { view_center: moved, home, age_secs: Some(3660), ..nothing_yet() };
    render_trail(&mut page, &[(450, 85)], Some((450, 85)), &st);
    assert!(s.same_as(&page));
}

#[test]
fn lines_are_those_of_a_walk() {
    for (x0, y0, x1, y1) in [
        (10, 80, 10, 80),
        (10, 80, 470, 80),
        (470, 90, 10, 90),
        (20, 600, 20, 80),
        (5, 70, 400, 650),
        (400, 650, 5, 70),
        (300, 100, 290, 680),
        (100, 300, 479, 310),
        (-50, -50, 600, 900),
        (30, 200, 33, 201),
        (30, 200, 32, 201),
        (30, 200, 34, 202),
    ] {
        for map in [false, true] {
            let mut s = Sheet::new();
            s.line(x0, y0, x1, y1, map);
            let mut page = Page::new();
            draw_line(&mut page, x0 as i64, y0 as i64, x1 as i64, y1 as i64, map);
            assert!(s.same_as(&page));
        }
        let mut s = Sheet::new();
        s.dashes(x0, y0, x1, y1);
        let mut page = Page::new();
        draw_dashes(&mut page, x0 as i64, y0 as i64, x1 as i64, y1 as i64, true);
        assert!(s.same_as(&page));
    }
}

#[test]
fn round_shapes_keep_to_the_map() {
    let mut s = Sheet::new();
    s.disk(5, 70, 10, true);
    s.ring(300, 684, 7);
    let mut page = Page::new();
    fill_disk(&mut page, 5, 70, 10, true, true);
    draw_ring(&mut page, 300, 684, 7, true);
    assert!(s.same_as(&page));
    assert!(!page.is_black(0, 70));
    assert!(page.is_black(1, 70));
    assert!(!page.is_black(5, 66));
}

#[test]
fn white_is_painted_too() {
    let mut page = Page::new();
    fill_row(&mut page, 10, 30, 100, false, true);
    fill_row(&mut page, 15, 20, 100, false, false);
    assert!(page.is_black(14, 100));
    assert!(!page.is_black(15, 100));
    assert!(!page.is_black(20, 100));
    assert!(page.is_black(21, 100));
    assert!(!page.is_black(31, 100));
    assert!(!page.is_black(21, 101));
    fill_row(&mut page, 5, 4, 50, false, true);
    assert!(!page.is_black(5, 50));
}

#[test]
fn points_off_the_page_are_ignored() {
    let mut page = Page::new();
    for (x, y) in [(-1, 0), (0, -1), (480, 0), (0, 800), (i64::MIN, i64::MAX)] {
        page.set_px(x, y, true);
        assert!(!page.is_black(x, y));
    }
    assert!(page.bw().iter().all(|b| *b == 0));
    page.set_px(9, 1, true);
    assert_eq!(page.bw()[61], 0x40);
    assert_eq!(page.red()[61], 0x40);
    page.clear();
    assert_eq!(page.bw()[61], 0);
}

#[test]
fn texts_are_drawn_where_they_belong() {
    for (font, large) in [(Font::Large, true), (Font::Medium, false)] {
        for (align, a) in [
            (Align::Left, Alignment::Left),
            (Align::Center, Alignment::Center),
            (Align::Right, Alignment::Right),
        ] {
            let mut s = Sheet::new();
            s.text("Ab1°·", 200, 300, large, a);
            let mut page = Page::new();
            draw_label(&mut page, "Ab1°·", 200, 300, font, align);
            assert!(s.same_as(&page));
            assert!(s.black.iter().any(|b| *b));
        }
    }
}

#[test]
fn a_row_is_put_where_it_is_told() {
    let mut page = Page::new();
    page.set_px(3, 7, true);
    page.set_px(5, 7, true);
    let coords: Vec<Option<(u16, u16)>> =
        (0..480u16).map(|x| if x == 5 { None } else { Some((479 - x, 792)) }).collect();
    let mut bw = vec![0xFFu8; 48_000];
    let mut red = vec![0u8; 48_000];
    page.put_row(7, &coords, &mut bw, &mut red);
    for x in 0..480usize {
        let at = (479 - x, 792);
        let bit = |p: &[u8]| p[60 * at.1 + at.0 / 8] & (0x80 >> (at.0 % 8)) != 0;
        assert_eq!(bit(&bw), x == 3 || x == 5);
        assert_eq!(bit(&red), x == 3);
    }
    assert_eq!(bw[0], 0xFF);
    let mut short = vec![0u8; 10];
    let mut none: Vec<u8> = Vec::new();
    page.put_row(7, &coords, &mut short, &mut none);
    assert_eq!(short, vec![0u8; 10]);
}

#[test]
fn names_of_directions() {
    for (half_deg, name) in [
        (0, "N"),
        (44, "N"),
        (45, "NE"),
        (90, "NE"),
        (134, "NE"),
        (135, "E"),
        (180, "E"),
        (270, "SE"),
        (360, "S"),
        (450, "SW"),
        (540, "W"),
        (630, "NW"),
        (674, "NW"),
        (675, "N"),
        (719, "N"),
    ] {
        assert_eq!(compass8(half_deg), name);
    }
}

#[test]
fn places_and_starts() {
    assert_eq!(place(0, 0), (239, 377));
    assert_eq!(place(-10, 20), (229, 357));
    let mut t: Trail<2> = Trail::new();
    assert_eq!(anchor(&t, None), None);
    let (p, h) = (GeoPoint::from_e7(1, 2), GeoPoint::from_e7(3, 4));
    t.push(p);
    t.push(h);
    assert_eq!(anchor(&t, None), Some(p));
    assert_eq!(anchor(&t, Some(h)), Some(h));
    assert_eq!(SCALE_M_PER_PX, [1, 2, 5, 10, 20, 50, 100]);
}
