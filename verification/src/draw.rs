//! The trail map: north up, the receiver's status above and below it.

use vstd::prelude::*;

use crate::label;
use crate::label::{Align, Font};
use crate::nav::{GeoPoint, Trail};
use crate::page;
use crate::page::{Page, Picture, PAGE_W};
use crate::shapes;
use crate::shapes::{MAP_X0, MAP_X1, MAP_Y0, MAP_Y1};
use crate::statuslog;
use crate::text;
use crate::text::FmtBuf;

verus! {

/// Metres per point of the zoom steps.
pub const SCALE_M_PER_PX: [u32; 7] = [1, 2, 5, 10, 20, 50, 100];

/// Distance of the grid's lines in points.
pub const GRID_PX: i64 = 80;

/// Where the start lies from the newest position.
#[derive(Debug, Clone, Copy, PartialEq, Eq, Structural)]
pub struct Homing {
    /// Distance in whole metres.
    pub distance_m: u32,
    /// Bearing in half degrees, clockwise from north.
    pub half_deg: u32,
}

/// The newest frame, as far as it is shown.
#[derive(Debug, Clone, Copy, PartialEq, Eq, Structural)]
pub struct LastRx {
    /// Running number.
    pub seq: u8,
    /// Whether it held a fix.
    pub fix: bool,
    /// Latitude in degrees times 10^7.
    pub lat_e7: i32,
    /// Longitude in degrees times 10^7.
    pub lon_e7: i32,
    /// Time of the fix in Unix seconds; 0 where it is not known.
    pub time_unix: u32,
    /// Signal strength in dBm.
    pub rssi: i16,
    /// Signal-to-noise ratio in dB.
    pub snr: i8,
}

/// What is shown around the map.
#[derive(Debug, Clone, Copy, PartialEq, Eq, Structural)]
pub struct Status {
    /// The newest frame, if one was received.
    pub last: Option<LastRx>,
    /// Seconds since the newest frame.
    pub age_secs: Option<u64>,
    /// Metres per point.
    pub m_per_px: u32,
    /// The start, if it was announced.
    pub home: Option<GeoPoint>,
    /// Where the start lies from the newest position.
    pub homing: Option<Homing>,
    /// Whether the radio answers.
    pub radio_ok: bool,
    /// Battery voltage in millivolts.
    pub vbat_mv: Option<u16>,
    /// Centre of the map, where the user moved it.
    pub view_center: Option<GeoPoint>,
}

impl Status {
    /// Times and scales that machine words can hold together.
    pub open spec fn in_range(self) -> bool {
        &&& self.age_secs matches Some(a) ==> a + u32::MAX + 9 * 3600 <= u64::MAX
        &&& self.m_per_px * GRID_PX <= u32::MAX
    }
}

/// A middle dot between blanks.
pub open spec fn dot() -> Seq<u8> {
    text::utf8(" · "@)
}

/// A time span as minutes and seconds, from one hour on as hours and minutes.
pub open spec fn age_text(age: u64) -> Seq<u8> {
    if age < 3600 {
        text::decimal(age as int / 60) + text::utf8(":"@) + text::padded(age as int % 60, 2)
    } else {
        text::decimal(age as int / 3600) + text::utf8(":"@) + text::padded(
            age as int % 3600 / 60,
            2,
        )
    }
}

/// Adds a time span.
fn write_age<const N: usize>(out: &mut FmtBuf<N>, age: u64)
    ensures
        final(out)@ == old(out)@ + age_text(age),
{
    let ghost b = out@;
    if age < 3600 {
        out.write_decimal(age / 60);
        out.write_str(":");
        out.write_padded(age % 60, 2);
    } else {
        out.write_decimal(age / 3600);
        out.write_str(":");
        out.write_padded(age % 3600 / 60, 2);
    }
    assert(out@ =~= b + age_text(age));
}

/// A coordinate as a hemisphere, degrees and five decimals, the rest cut off.
pub open spec fn coord_text(e7: i32, pos: Seq<char>, neg: Seq<char>) -> Seq<u8> {
    let a = if e7 < 0 {
        -e7
    } else {
        e7 as int
    };
    text::utf8(
        if e7 < 0 {
            neg
        } else {
            pos
        },
    ) + text::decimal(a / 10_000_000) + text::utf8("."@) + text::padded(
        a % 10_000_000 / 100,
        5,
    )
}

/// Adds a coordinate.
fn write_coord<const N: usize>(out: &mut FmtBuf<N>, e7: i32, pos: &str, neg: &str)
    ensures
        final(out)@ == old(out)@ + coord_text(e7, pos@, neg@),
{
    let ghost b = out@;
    let a: u64 = if e7 < 0 {
        (-(e7 as i64)) as u64
    } else {
        e7 as u64
    };
    out.write_str(
        if e7 < 0 {
            neg
        } else {
            pos
        },
    );
    out.write_decimal(a / 10_000_000);
    out.write_str(".");
    out.write_padded(a % 10_000_000 / 100, 5);
    assert(out@ =~= b + coord_text(e7, pos@, neg@));
}

/// Names of the eight directions, clockwise from north.
pub const COMPASS: [&'static str; 8] = ["N", "NE", "E", "SE", "S", "SW", "W", "NW"];

/// Number of the direction nearest to a bearing in half degrees, clockwise from north.
pub open spec fn sector(half_deg: int) -> int {
    (half_deg + 45) / 90 % 8
}

/// Name of the direction nearest to a bearing in half degrees.
pub fn compass8(half_deg: u32) -> (name: &'static str)
    ensures
        name@ == COMPASS[sector(half_deg as int)]@,
{
    let i: usize = ((half_deg as u64 + 45) / 90 % 8) as usize;
    COMPASS[i]
}

/// Every bearing is at most 22.5 degrees from the direction it is named after.
pub proof fn law_compass_is_near(half_deg: int)
    requires
        0 <= half_deg,
    ensures
        0 <= sector(half_deg) < 8,
        exists|turns: int|
            #![trigger 720 * turns]
            -45 <= half_deg - (90 * sector(half_deg) + 720 * turns) < 45,
{
    let q = (half_deg + 45) / 90;
    let turns = q / 8;
    assert(q == 8 * turns + q % 8);
    assert(-45 <= half_deg - (90 * sector(half_deg) + 720 * turns) < 45);
}

/// The time of day in Japan and the charge, at the top right.
pub open spec fn clock_text(st: Status) -> Seq<u8> {
    (match st.last {
        Some(rx) => if rx.time_unix != 0 {
            let now = rx.time_unix + (match st.age_secs {
                Some(a) => a as int,
                None => 0,
            }) + 9 * 3600;
            text::padded(now % 86_400 / 3600, 2) + text::utf8(":"@) + text::padded(
                now % 3600 / 60,
                2,
            )
        } else {
            text::utf8("--:--"@)
        },
        None => text::utf8("--:--"@),
    }) + dot() + (match st.vbat_mv {
        Some(mv) => if mv > 0 {
            text::decimal(statuslog::charge(mv))
        } else {
            text::utf8("--"@)
        },
        None => text::utf8("--"@),
    }) + text::utf8("%"@)
}

/// Writes the time of day and the charge.
fn clock_line(st: &Status) -> (out: FmtBuf<24>)
    requires
        st.in_range(),
    ensures
        out@ == clock_text(*st),
{
    let mut out = FmtBuf::<24>::new();
    let mut known: bool = false;
    if let Some(rx) = st.last {
        if rx.time_unix != 0 {
            known = true;
            let age: u64 = match st.age_secs {
                Some(a) => a,
                None => 0,
            };
            let now: u64 = rx.time_unix as u64 + age + 9 * 3600;
            out.write_padded(now % 86_400 / 3600, 2);
            out.write_str(":");
            out.write_padded(now % 3600 / 60, 2);
        }
    }
    if !known {
        out.write_str("--:--");
    }
    out.write_str(" · ");
    let mut read: bool = false;
    if let Some(mv) = st.vbat_mv {
        if mv > 0 {
            read = true;
            out.write_decimal(statuslog::batt_pct(mv) as u64);
        }
    }
    if !read {
        out.write_str("--");
    }
    out.write_str("%");
    assert(out@ =~= clock_text(*st));
    out
}

/// How long ago the newest frame came, at the top right.
pub open spec fn ago_text(st: Status) -> Seq<u8> {
    match st.age_secs {
        Some(a) => text::utf8("RX "@) + age_text(a) + text::utf8(" AGO"@),
        None => text::utf8("RX ---"@),
    }
}

/// Writes how long ago the newest frame came.
fn ago_line(st: &Status) -> (out: FmtBuf<24>)
    ensures
        out@ == ago_text(*st),
{
    let mut out = FmtBuf::<24>::new();
    match st.age_secs {
        Some(a) => {
            out.write_str("RX ");
            write_age(&mut out, a);
            out.write_str(" AGO");
        },
        None => {
            out.write_str("RX ---");
        },
    }
    assert(out@ =~= ago_text(*st));
    out
}

/// The length of one square of the grid.
pub open spec fn scale_text(m_per_px: u32) -> Seq<u8> {
    let m = m_per_px * GRID_PX;
    if m >= 1000 {
        text::decimal(m / 1000) + text::utf8("."@) + text::decimal(m % 1000 / 100) + text::utf8(
            " km"@,
        )
    } else {
        text::decimal(m) + text::utf8(" m"@)
    }
}

/// Writes the length of one square of the grid.
fn scale_line(m_per_px: u32) -> (out: FmtBuf<16>)
    requires
        m_per_px * GRID_PX <= u32::MAX,
    ensures
        out@ == scale_text(m_per_px),
{
    let mut out = FmtBuf::<16>::new();
    let m: u64 = m_per_px as u64 * GRID_PX as u64;
    if m >= 1000 {
        out.write_decimal(m / 1000);
        out.write_str(".");
        out.write_decimal(m % 1000 / 100);
        out.write_str(" km");
    } else {
        out.write_decimal(m);
        out.write_str(" m");
    }
    assert(out@ =~= scale_text(m_per_px));
    out
}

/// The first line below the map: where the beacon is.
pub open spec fn place_text(st: Status) -> Seq<u8> {
    match st.last {
        Some(rx) => text::utf8("C6L  "@) + coord_text(rx.lat_e7, "N"@, "S"@) + text::utf8("  "@)
            + coord_text(rx.lon_e7, "E"@, "W"@),
        None => text::utf8("C6L  ---------  ----------"@),
    }
}

/// Writes where the beacon is.
fn place_line(st: &Status) -> (out: FmtBuf<48>)
    ensures
        out@ == place_text(*st),
{
    let mut out = FmtBuf::<48>::new();
    match st.last {
        Some(rx) => {
            out.write_str("C6L  ");
            write_coord(&mut out, rx.lat_e7, "N", "S");
            out.write_str("  ");
            write_coord(&mut out, rx.lon_e7, "E", "W");
        },
        None => {
            out.write_str("C6L  ---------  ----------");
        },
    }
    assert(out@ =~= place_text(*st));
    out
}

/// The second line below the map: the newest frame and how it was received.
pub open spec fn frame_text(st: Status, positions: int) -> Seq<u8> {
    match st.last {
        Some(rx) => text::utf8("SEQ "@) + text::decimal(rx.seq as int) + dot() + text::utf8(
            "FIX "@,
        ) + text::decimal(
            if rx.fix {
                1int
            } else {
                0
            },
        ) + dot() + text::utf8("N "@) + text::decimal(positions) + dot() + text::utf8("LAST "@) + (
        match st.age_secs {
            Some(a) => age_text(a),
            None => text::utf8("---"@),
        }) + dot() + text::signed(rx.rssi as int) + text::utf8(" dBm "@) + text::signed(
            rx.snr as int,
        ) + text::utf8(" dB"@),
        None => text::utf8("SEQ ---"@) + dot() + text::utf8("N 0"@) + dot() + text::utf8(
            "LAST ---"@,
        ),
    }
}

/// Writes what is known of the newest frame.
fn frame_line(st: &Status, positions: usize) -> (out: FmtBuf<56>)
    ensures
        out@ == frame_text(*st, positions as int),
{
    let mut out = FmtBuf::<56>::new();
    match st.last {
        Some(rx) => {
            out.write_str("SEQ ");
            out.write_decimal(rx.seq as u64);
            out.write_str(" · ");
            out.write_str("FIX ");
            out.write_decimal(
                if rx.fix {
                    1
                } else {
                    0
                },
            );
            out.write_str(" · ");
            out.write_str("N ");
            out.write_decimal(positions as u64);
            out.write_str(" · ");
            out.write_str("LAST ");
            match st.age_secs {
                Some(a) => write_age(&mut out, a),
                None => out.write_str("---"),
            }
            out.write_str(" · ");
            out.write_signed(rx.rssi as i32);
            out.write_str(" dBm ");
            out.write_signed(rx.snr as i32);
            out.write_str(" dB");
        },
        None => {
            out.write_str("SEQ ---");
            out.write_str(" · ");
            out.write_str("N 0");
            out.write_str(" · ");
            out.write_str("LAST ---");
        },
    }
    assert(out@ =~= frame_text(*st, positions as int));
    out
}

/// The third line below the map: the way home.
pub open spec fn home_text(st: Status) -> Seq<u8> {
    match (st.home, st.homing) {
        (Some(_), Some(h)) => text::utf8("HOME "@) + (if h.distance_m >= 1000 {
            text::decimal(h.distance_m as int / 1000) + text::utf8("."@) + text::padded(
                h.distance_m as int % 1000 / 10,
                2,
            ) + text::utf8(" km"@)
        } else {
            text::decimal(h.distance_m as int) + text::utf8(" m"@)
        }) + dot() + text::decimal(h.half_deg as int / 2) + text::utf8("°"@) + text::utf8(
            COMPASS[sector(h.half_deg as int)]@,
        ),
        _ => text::utf8("HOME not received"@),
    }
}

/// Writes the way home.
fn home_line(st: &Status) -> (out: FmtBuf<48>)
    ensures
        out@ == home_text(*st),
{
    let mut out = FmtBuf::<48>::new();
    match (st.home, st.homing) {
        (Some(_), Some(h)) => {
            out.write_str("HOME ");
            if h.distance_m >= 1000 {
                out.write_decimal(h.distance_m as u64 / 1000);
                out.write_str(".");
                out.write_padded(h.distance_m as u64 % 1000 / 10, 2);
                out.write_str(" km");
            } else {
                out.write_decimal(h.distance_m as u64);
                out.write_str(" m");
            }
            out.write_str(" · ");
            out.write_decimal(h.half_deg as u64 / 2);
            out.write_str("°");
            out.write_str(compass8(h.half_deg));
        },
        _ => {
            out.write_str("HOME not received");
        },
    }
    assert(out@ =~= home_text(*st));
    out
}

impl Picture {
    /// With a line in black, clipped to the map or not.
    pub open spec fn lined(self, x0: int, y0: int, x1: int, y1: int, clip: bool) -> Self {
        self.painted(shapes::clipped(shapes::line_points((x0, y0), (x1, y1)), clip), true)
    }
}

/// The head of the page: name, time and charge, age of the newest frame, a dot while
/// frames come in, and a double rule.
pub open spec fn with_header(pic: Picture, st: Status) -> Picture {
    let pic = pic.labelled("NOSTOS"@, 12, 42, Font::Large, Align::Left);
    let pic = pic.labelled(
        text::text_of(text::fit(clock_text(st), 24)),
        PAGE_W - 12,
        30,
        Font::Medium,
        Align::Right,
    );
    let pic = pic.labelled(
        text::text_of(text::fit(ago_text(st), 24)),
        PAGE_W - 12,
        54,
        Font::Medium,
        Align::Right,
    );
    let pic = if st.age_secs matches Some(a) && a <= 90 {
        pic.painted(shapes::disk(PAGE_W - 108, 49, 3), true)
    } else {
        pic
    };
    pic.lined(0, 63, PAGE_W - 1, 63, false).lined(0, 64, PAGE_W - 1, 64, false)
}

/// Draws the head of the page.
fn draw_header(page: &mut Page, st: &Status)
    requires
        st.in_range(),
    ensures
        final(page)@ == with_header(old(page)@, *st),
{
    proof {
        reveal_strlit("NOSTOS");
    }
    label::draw_label(page, "NOSTOS", 12, 42, Font::Large, Align::Left);
    let l1 = clock_line(st);
    label::draw_label(page, l1.as_str(), 468, 30, Font::Medium, Align::Right);
    let l2 = ago_line(st);
    label::draw_label(page, l2.as_str(), 468, 54, Font::Medium, Align::Right);
    if let Some(a) = st.age_secs {
        if a <= 90 {
            shapes::fill_disk(page, PAGE_W - 108, 49, 3, false, true);
        }
    }
    shapes::draw_line(page, 0, 63, PAGE_W - 1, 63, false);
    shapes::draw_line(page, 0, 64, PAGE_W - 1, 64, false);
}

/// The grid: the map's centre lies on a crossing, and lines are [`GRID_PX`] apart.
pub open spec fn grid() -> Set<(int, int)> {
    Set::new(
        |p: (int, int)|
            shapes::in_map(p) && ((p.0 - (MAP_X0 + MAP_X1) / 2) % (GRID_PX as int) == 0 || (p.1 - (
            MAP_Y0 + MAP_Y1) / 2) % (GRID_PX as int) == 0),
    )
}

/// The grid's upright lines left of `x`.
spec fn grid_upright(x: int) -> Set<(int, int)> {
    Set::new(|p: (int, int)| shapes::in_map(p) && (p.0 - 239) % 80 == 0 && p.0 < x)
}

/// The grid's upright lines, and its level lines above `y`.
spec fn grid_level(y: int) -> Set<(int, int)> {
    Set::new(
        |p: (int, int)|
            shapes::in_map(p) && ((p.0 - 239) % 80 == 0 || (p.1 - 377) % 80 == 0 && p.1 < y),
    )
}

/// Draws the grid.
fn draw_grid(page: &mut Page)
    ensures
        final(page)@ == old(page)@.painted(grid(), true),
{
    let ghost pic = page@;
    let ccx: i64 = (MAP_X0 + MAP_X1) / 2;
    let ccy: i64 = (MAP_Y0 + MAP_Y1) / 2;
    let mut gx: i64 = ccx % GRID_PX;
    proof {
        page::lemma_painted_empty(pic, true);
        page::lemma_painted_same(pic, Set::empty(), grid_upright(gx as int), true);
    }
    while gx < MAP_X1
        invariant
            79 <= gx <= 479 + 80,
            gx % 80 == 79,
            page@ == pic.painted(grid_upright(gx as int), true),
        decreases MAP_X1 + 80 - gx,
    {
        if gx > MAP_X0 {
            shapes::draw_line(page, gx, MAP_Y0 + 1, gx, MAP_Y1 - 1, true);
        }
        proof {
            let a = grid_upright(gx as int);
            let l = shapes::clipped(
                shapes::line_points((gx as int, MAP_Y0 + 1), (gx as int, MAP_Y1 - 1)),
                true,
            );
            let c = grid_upright(gx + 80);
            shapes::law_upright_line(gx as int, MAP_Y0 + 1, MAP_Y1 - 1);
            page::lemma_painted_union(pic, a, l, true);
            assert forall|p: (int, int)| a.union(l).contains(p) == c.contains(p) by {
                if shapes::in_map(p) && (p.0 - 239) % 80 == 0 && gx <= p.0 < gx + 80 {
                    assert(p.0 == gx);
                }
            }
            page::lemma_painted_same(pic, a.union(l), c, true);
        }
        gx += GRID_PX;
    }
    let mut gy: i64 = ccy % GRID_PX;
    proof {
        page::lemma_painted_same(pic, grid_upright(gx as int), grid_level(gy as int), true);
    }
    while gy < MAP_Y1
        invariant
            57 <= gy <= 688 + 80,
            gy % 80 == 57,
            page@ == pic.painted(grid_level(gy as int), true),
        decreases MAP_Y1 + 80 - gy,
    {
        if gy > MAP_Y0 {
            shapes::draw_line(page, MAP_X0 + 1, gy, MAP_X1 - 1, gy, true);
            proof {
                let a = grid_level(gy as int);
                let l = shapes::clipped(
                    shapes::line_points((MAP_X0 + 1, gy as int), (MAP_X1 - 1, gy as int)),
                    true,
                );
                let c = grid_level(gy + 80);
                shapes::law_level_line(MAP_X0 + 1, MAP_X1 - 1, gy as int);
                page::lemma_painted_union(pic, a, l, true);
                assert forall|p: (int, int)| a.union(l).contains(p) == c.contains(p) by {
                    if shapes::in_map(p) && (p.1 - 377) % 80 == 0 && gy <= p.1 < gy + 80 {
                        assert(p.1 == gy);
                    }
                }
                page::lemma_painted_same(pic, a.union(l), c, true);
            }
        } else {
            proof {
                page::lemma_painted_same(pic, grid_level(gy as int), grid_level(gy + 80), true);
            }
        }
        gy += GRID_PX;
    }
    proof {
        page::lemma_painted_same(pic, grid_level(gy as int), grid(), true);
    }
}

/// The points of a region above row `y`.
spec fn above(region: Set<(int, int)>, y: int) -> Set<(int, int)> {
    Set::new(|p: (int, int)| region.contains(p) && p.1 < y)
}

/// A row added to what is above it.
proof fn lemma_row(
    pic: Picture,
    region: Set<(int, int)>,
    x0: int,
    x1: int,
    y: int,
    black: bool,
)
    requires
        forall|p: (int, int)| p.1 == y ==> region.contains(p) == (x0 <= p.0 <= x1),
    ensures
        pic.painted(shapes::clipped(above(region, y), true), black).painted(
            shapes::clipped(shapes::row(x0, x1, y), true),
            black,
        ) == pic.painted(shapes::clipped(above(region, y + 1), true), black),
{
    let a = shapes::clipped(above(region, y), true);
    let b = shapes::clipped(shapes::row(x0, x1, y), true);
    page::lemma_painted_union(pic, a, b, black);
    page::lemma_painted_same(
        pic,
        a.union(b),
        shapes::clipped(above(region, y + 1), true),
        black,
    );
}

/// The head of the arrow that points north, with its tip 18 points above its centre.
pub open spec fn arrow_head(cx: int, cy: int) -> Set<(int, int)> {
    Set::new(
        |p: (int, int)|
            -18 <= p.1 - cy <= -8 && 2 * shapes::dist(p.0, cx) <= p.1 - cy + 18,
    )
}

/// The arrow that points north, with its letter.
pub open spec fn with_north(pic: Picture) -> Picture {
    let x = MAP_X0 + 44;
    let y = MAP_Y0 + 38;
    pic.lined(x, y + 16, x, y - 8, true).lined(x + 1, y + 16, x + 1, y - 8, true).painted(
        shapes::clipped(arrow_head(x, y), true),
        true,
    ).labelled("N"@, x, y + 36, Font::Medium, Align::Center)
}

/// Draws the arrow that points north.
fn draw_north(page: &mut Page)
    ensures
        final(page)@ == with_north(old(page)@),
{
    let nx: i64 = MAP_X0 + 44;
    let ny: i64 = MAP_Y0 + 38;
    shapes::draw_line(page, nx, ny + 16, nx, ny - 8, true);
    shapes::draw_line(page, nx + 1, ny + 16, nx + 1, ny - 8, true);
    let ghost pic = page@;
    let ghost head = arrow_head(nx as int, ny as int);
    let mut dy: i64 = -18;
    proof {
        page::lemma_painted_empty(pic, true);
        page::lemma_painted_same(
            pic,
            Set::empty(),
            shapes::clipped(above(head, ny - 18), true),
            true,
        );
    }
    while dy <= -8
        invariant
            nx == 44,
            ny == 104,
            -18 <= dy <= -7,
            head == arrow_head(nx as int, ny as int),
            page@ == pic.painted(shapes::clipped(above(head, ny + dy), true), true),
        decreases -dy,
    {
        let hw: i64 = (dy + 18) * 5 / 10;
        shapes::fill_row(page, nx - hw, nx + hw, ny + dy, true, true);
        proof {
            lemma_row(pic, head, nx - hw, nx + hw, ny + dy, true);
        }
        dy += 1;
    }
    proof {
        page::lemma_painted_same(
            pic,
            shapes::clipped(above(head, ny - 7), true),
            shapes::clipped(head, true),
            true,
        );
        reveal_strlit("N");
    }
    label::draw_label(page, "N", 44, 140, Font::Medium, Align::Center);
}

/// The scale bar, as long as one square of the grid.
pub open spec fn with_scale(pic: Picture, m_per_px: u32) -> Picture {
    let x = MAP_X0 + 40;
    let y = MAP_Y1 - 20;
    pic.lined(x, y, x + GRID_PX, y, true).lined(x, y + 1, x + GRID_PX, y + 1, true).lined(
        x,
        y - 5,
        x,
        y + 6,
        true,
    ).lined(x + GRID_PX, y - 5, x + GRID_PX, y + 6, true).labelled(
        text::text_of(text::fit(scale_text(m_per_px), 16)),
        x + GRID_PX / 2,
        y - 10,
        Font::Medium,
        Align::Center,
    )
}

/// Draws the scale bar.
fn draw_scale(page: &mut Page, m_per_px: u32)
    requires
        m_per_px * GRID_PX <= u32::MAX,
    ensures
        final(page)@ == with_scale(old(page)@, m_per_px),
{
    let sb_x: i64 = MAP_X0 + 40;
    let sb_y: i64 = MAP_Y1 - 20;
    shapes::draw_line(page, sb_x, sb_y, sb_x + GRID_PX, sb_y, true);
    shapes::draw_line(page, sb_x, sb_y + 1, sb_x + GRID_PX, sb_y + 1, true);
    shapes::draw_line(page, sb_x, sb_y - 5, sb_x, sb_y + 6, true);
    shapes::draw_line(page, sb_x + GRID_PX, sb_y - 5, sb_x + GRID_PX, sb_y + 6, true);
    let s = scale_line(m_per_px);
    label::draw_label(page, s.as_str(), 80, 658, Font::Medium, Align::Center);
}

/// The foot of the page: a double rule and three lines.
pub open spec fn with_footer(pic: Picture, st: Status, positions: int) -> Picture {
    pic.lined(0, MAP_Y1 as int, PAGE_W - 1, MAP_Y1 as int, false).lined(
        0,
        MAP_Y1 + 1,
        PAGE_W - 1,
        MAP_Y1 + 1,
        false,
    ).labelled(
        text::text_of(text::fit(place_text(st), 48)),
        16,
        MAP_Y1 + 30,
        Font::Large,
        Align::Left,
    ).labelled(
        text::text_of(text::fit(frame_text(st, positions), 56)),
        16,
        MAP_Y1 + 56,
        Font::Medium,
        Align::Left,
    ).labelled(
        text::text_of(text::fit(home_text(st), 48)),
        16,
        MAP_Y1 + 84,
        Font::Large,
        Align::Left,
    )
}

/// Draws the foot of the page.
fn draw_footer(page: &mut Page, st: &Status, positions: usize)
    ensures
        final(page)@ == with_footer(old(page)@, *st, positions as int),
{
    shapes::draw_line(page, 0, MAP_Y1, PAGE_W - 1, MAP_Y1, false);
    shapes::draw_line(page, 0, MAP_Y1 + 1, PAGE_W - 1, MAP_Y1 + 1, false);
    let l1 = place_line(st);
    let l2 = frame_line(st, positions);
    let l3 = home_line(st);
    label::draw_label(page, l1.as_str(), 16, 718, Font::Large, Align::Left);
    label::draw_label(page, l2.as_str(), 16, 744, Font::Medium, Align::Left);
    label::draw_label(page, l3.as_str(), 16, 772, Font::Large, Align::Left);
}

/// A place on the map that shapes around it can still be drawn at.
pub open spec fn placeable(p: (i32, i32)) -> bool {
    &&& -0x1000_0000 <= p.0 <= 0x1000_0000
    &&& -0x1000_0000 <= p.1 <= 0x1000_0000
}

/// Where on the map so many points east and north of its centre are.
pub open spec fn placed(east: int, north: int) -> (int, int) {
    ((MAP_X0 + MAP_X1) / 2 + east, (MAP_Y0 + MAP_Y1) / 2 - north)
}

/// The place on the map that lies so many points east and north of its centre.
pub fn place(east: i32, north: i32) -> (p: (i32, i32))
    requires
        -0x0FFF_F000 <= east <= 0x0FFF_F000,
        -0x0FFF_F000 <= north <= 0x0FFF_F000,
    ensures
        p.0 == (MAP_X0 + MAP_X1) / 2 + east,
        p.1 == (MAP_Y0 + MAP_Y1) / 2 - north,
        placeable(p),
        placed(east as int, north as int) == (p.0 as int, p.1 as int),
{
    (239 + east, 377 - north)
}

/// A position passed: a white disk in a ring.
pub open spec fn with_waypoint(pic: Picture, x: int, y: int) -> Picture {
    pic.painted(shapes::clipped(shapes::disk(x, y, 6), true), false).painted(
        shapes::clipped(shapes::ring(x, y, 7), true),
        true,
    )
}

/// Draws a position passed.
fn draw_waypoint(page: &mut Page, x: i64, y: i64)
    requires
        shapes::drawable(x as int),
        shapes::drawable(y as int),
    ensures
        final(page)@ == with_waypoint(old(page)@, x as int, y as int),
{
    shapes::fill_disk(page, x, y, 6, true, false);
    shapes::draw_ring(page, x, y, 7, true);
}

/// The newest position: a black disk with a white hole.
pub open spec fn with_current(pic: Picture, x: int, y: int) -> Picture {
    pic.painted(shapes::clipped(shapes::disk(x, y, 10), true), true).painted(
        shapes::clipped(shapes::disk(x, y, 4), true),
        false,
    )
}

/// Draws the newest position.
fn draw_current(page: &mut Page, x: i64, y: i64)
    requires
        shapes::drawable(x as int),
        shapes::drawable(y as int),
    ensures
        final(page)@ == with_current(old(page)@, x as int, y as int),
{
    shapes::fill_disk(page, x, y, 10, true, true);
    shapes::fill_disk(page, x, y, 4, true, false);
}

/// The inside of the house: a gable over a box.
pub open spec fn house_inside(x: int, y: int) -> Set<(int, int)> {
    Set::new(
        |p: (int, int)|
            {
                let dy = p.1 - y;
                let dx = shapes::dist(p.0, x);
                -9 <= dy <= 14 && (if dy < 3 {
                    12 * dx <= 11 * (dy + 9)
                } else {
                    dx <= 11
                })
            },
    )
}

/// One of the two outlines of the house: roof, walls and floor.
pub open spec fn with_house_outline(pic: Picture, x: int, y: int, o: int) -> Picture {
    pic.lined(x - 11, y + 3 + o, x, y - 9 + o, true).lined(
        x + 11,
        y + 3 + o,
        x,
        y - 9 + o,
        true,
    ).lined(x - 11 + o, y + 3, x - 11 + o, y + 14, true).lined(
        x + 11 - o,
        y + 3,
        x + 11 - o,
        y + 14,
        true,
    ).lined(x - 11, y + 14 - o, x + 11, y + 14 - o, true)
}

/// The start: a white house with black outlines.
pub open spec fn with_house(pic: Picture, x: int, y: int) -> Picture {
    with_house_outline(
        with_house_outline(
            pic.painted(shapes::clipped(house_inside(x, y), true), false),
            x,
            y,
            0,
        ),
        x,
        y,
        1,
    )
}

/// Draws one outline of the house.
fn draw_house_outline(page: &mut Page, x: i64, y: i64, o: i64)
    requires
        -0x1000_0000 <= x <= 0x1000_0000,
        -0x1000_0000 <= y <= 0x1000_0000,
        0 <= o <= 1,
    ensures
        final(page)@ == with_house_outline(old(page)@, x as int, y as int, o as int),
{
    shapes::draw_line(page, x - 11, y + 3 + o, x, y - 9 + o, true);
    shapes::draw_line(page, x + 11, y + 3 + o, x, y - 9 + o, true);
    shapes::draw_line(page, x - 11 + o, y + 3, x - 11 + o, y + 14, true);
    shapes::draw_line(page, x + 11 - o, y + 3, x + 11 - o, y + 14, true);
    shapes::draw_line(page, x - 11, y + 14 - o, x + 11, y + 14 - o, true);
}

/// Draws the house.
fn draw_house(page: &mut Page, x: i64, y: i64)
    requires
        -0x1000_0000 <= x <= 0x1000_0000,
        -0x1000_0000 <= y <= 0x1000_0000,
    ensures
        final(page)@ == with_house(old(page)@, x as int, y as int),
{
    let ghost pic = page@;
    let ghost inside = house_inside(x as int, y as int);
    let mut dy: i64 = -9;
    proof {
        page::lemma_painted_empty(pic, false);
        page::lemma_painted_same(
            pic,
            Set::empty(),
            shapes::clipped(above(inside, y - 9), true),
            false,
        );
    }
    while dy <= 14
        invariant
            -0x1000_0000 <= x <= 0x1000_0000,
            -0x1000_0000 <= y <= 0x1000_0000,
            -9 <= dy <= 15,
            inside == house_inside(x as int, y as int),
            page@ == pic.painted(shapes::clipped(above(inside, y + dy), true), false),
        decreases 15 - dy,
    {
        let hw: i64 = if dy < 3 {
            (dy + 9) * 11 / 12
        } else {
            11
        };
        shapes::fill_row(page, x - hw, x + hw, y + dy, true, false);
        proof {
            lemma_row(pic, inside, x - hw, x + hw, y + dy, false);
        }
        dy += 1;
    }
    proof {
        page::lemma_painted_same(
            pic,
            shapes::clipped(above(inside, y + 15), true),
            shapes::clipped(inside, true),
            false,
        );
    }
    draw_house_outline(page, x, y, 0);
    draw_house_outline(page, x, y, 1);
}

/// The dashed way along the first `n` places.
pub open spec fn with_way(pic: Picture, places: Seq<(i32, i32)>, n: int) -> Picture
    decreases n,
{
    if n <= 1 {
        pic
    } else {
        let a = places[n - 2];
        let b = places[n - 1];
        with_way(pic, places, n - 1).painted(
            shapes::clipped(
                shapes::dash_points((a.0 as int, a.1 as int), (b.0 as int, b.1 as int)),
                true,
            ),
            true,
        )
    }
}

/// Draws the dashed way.
fn draw_way(page: &mut Page, places: &[(i32, i32)])
    requires
        forall|i: int| 0 <= i < places@.len() ==> placeable(#[trigger] places@[i]),
    ensures
        final(page)@ == with_way(old(page)@, places@, places@.len() as int),
{
    let ghost pic = page@;
    let mut i: usize = 1;
    while i < places.len()
        invariant
            1 <= i,
            i <= places@.len() || i == 1,
            forall|i: int| 0 <= i < places@.len() ==> placeable(#[trigger] places@[i]),
            page@ == with_way(pic, places@, i as int),
        decreases places@.len() - i,
    {
        let (ax, ay): (i32, i32) = places[i - 1];
        let (bx, by): (i32, i32) = places[i];
        assert(placeable(places@[i - 1]) && placeable(places@[i as int]));
        shapes::draw_dashes(page, ax as i64, ay as i64, bx as i64, by as i64, true);
        i += 1;
    }
    assert(with_way(pic, places@, 0) == with_way(pic, places@, 1));
}

/// Place number `i` of `n` on the map: its mark and its number. With `house`, the house
/// stands on the first place, which then has no mark and its number on the left.
pub open spec fn with_mark(pic: Picture, p: (i32, i32), i: int, n: int, house: bool) -> Picture {
    let number = text::text_of(text::fit(text::decimal(i + 1), 8));
    if house && i == 0 {
        pic.labelled(number, p.0 - 16, p.1 + 5, Font::Medium, Align::Right)
    } else {
        (if i + 1 == n {
            with_current(pic, p.0 as int, p.1 as int)
        } else {
            with_waypoint(pic, p.0 as int, p.1 as int)
        }).labelled(number, p.0 + 13, p.1 + 5, Font::Medium, Align::Left)
    }
}

/// The marks of the first `k` places.
pub open spec fn with_marks(
    pic: Picture,
    places: Seq<(i32, i32)>,
    house: bool,
    k: int,
) -> Picture
    decreases k,
{
    if k <= 0 {
        pic
    } else {
        with_mark(
            with_marks(pic, places, house, k - 1),
            places[k - 1],
            k - 1,
            places.len() as int,
            house,
        )
    }
}

/// Draws the marks of all places.
fn draw_marks(page: &mut Page, places: &[(i32, i32)], house: bool)
    requires
        forall|i: int| 0 <= i < places@.len() ==> placeable(#[trigger] places@[i]),
    ensures
        final(page)@ == with_marks(old(page)@, places@, house, places@.len() as int),
{
    let ghost pic = page@;
    let n: usize = places.len();
    let mut i: usize = 0;
    while i < n
        invariant
            i <= n,
            n == places@.len(),
            forall|i: int| 0 <= i < places@.len() ==> placeable(#[trigger] places@[i]),
            page@ == with_marks(pic, places@, house, i as int),
        decreases n - i,
    {
        let (px, py): (i32, i32) = places[i];
        assert(placeable(places@[i as int]));
        let on_house: bool = house && i == 0;
        if !on_house {
            if i + 1 == n {
                draw_current(page, px as i64, py as i64);
            } else {
                draw_waypoint(page, px as i64, py as i64);
            }
        }
        let mut s = FmtBuf::<8>::new();
        s.write_decimal(i as u64 + 1);
        assert(s@ =~= text::decimal(i + 1));
        if on_house {
            label::draw_label(page, s.as_str(), px - 16, py + 5, Font::Medium, Align::Right);
        } else {
            label::draw_label(page, s.as_str(), px + 13, py + 5, Font::Medium, Align::Left);
        }
        i += 1;
    }
}

/// The trail on the map: the way, the house at the start, the marks; or, while there is
/// nothing to show, a line that says so.
pub open spec fn with_trail(
    pic: Picture,
    places: Seq<(i32, i32)>,
    anchor: Option<(i32, i32)>,
    st: Status,
) -> Picture {
    if places.len() == 0 && st.home is None && st.view_center is None {
        pic.labelled(
            "WAITING FOR C6L BEACON..."@,
            PAGE_W as int / 2,
            (MAP_Y0 + MAP_Y1) / 2,
            Font::Large,
            Align::Center,
        )
    } else {
        let pic = with_way(pic, places, places.len() as int);
        let pic = match anchor {
            Some(a) => with_house(pic, a.0 as int, a.1 as int),
            None => pic,
        };
        with_marks(pic, places, st.home is None, places.len() as int)
    }
}

/// Draws the trail.
fn draw_trail(page: &mut Page, places: &[(i32, i32)], anchor: Option<(i32, i32)>, st: &Status)
    requires
        forall|i: int| 0 <= i < places@.len() ==> placeable(#[trigger] places@[i]),
        anchor matches Some(a) ==> placeable(a),
    ensures
        final(page)@ == with_trail(old(page)@, places@, anchor, *st),
{
    if places.len() == 0 && st.home.is_none() && st.view_center.is_none() {
        proof {
            reveal_strlit("WAITING FOR C6L BEACON...");
        }
        label::draw_label(
            page,
            "WAITING FOR C6L BEACON...",
            240,
            377,
            Font::Large,
            Align::Center,
        );
    } else {
        draw_way(page, places);
        if let Some((x, y)) = anchor {
            draw_house(page, x as i64, y as i64);
        }
        draw_marks(page, places, st.home.is_none());
    }
}

/// The sign that the user has moved the map, at the top right of it.
pub open spec fn with_pan_sign(pic: Picture, st: Status) -> Picture {
    if st.view_center is Some {
        pic.labelled("PAN"@, PAGE_W - 12, MAP_Y0 + 24, Font::Medium, Align::Right)
    } else {
        pic
    }
}

/// Draws the sign that the user has moved the map.
fn draw_pan_sign(page: &mut Page, st: &Status)
    ensures
        final(page)@ == with_pan_sign(old(page)@, *st),
{
    if st.view_center.is_some() {
        proof {
            reveal_strlit("PAN");
        }
        label::draw_label(page, "PAN", 468, 90, Font::Medium, Align::Right);
    }
}

/// The whole trail map, for the trail's positions and the start as they are placed on
/// it.
pub open spec fn trail_map(
    places: Seq<(i32, i32)>,
    anchor: Option<(i32, i32)>,
    st: Status,
) -> Picture {
    let pic = with_header(Picture::blank(), st).painted(grid(), true);
    let pic = if st.radio_ok {
        pic
    } else {
        pic.labelled(
            "SX1262 NOT RESPONDING"@,
            PAGE_W as int / 2,
            MAP_Y0 + 32,
            Font::Large,
            Align::Center,
        )
    };
    let pic = with_scale(with_north(pic), st.m_per_px);
    with_footer(
        with_pan_sign(with_trail(pic, places, anchor, st), st),
        st,
        places.len() as int,
    )
}

/// Draws the trail map over whatever the page shows. `places` are the trail's positions
/// on the map, oldest first, and `anchor` is the place of the start.
pub fn render_trail(
    page: &mut Page,
    places: &[(i32, i32)],
    anchor: Option<(i32, i32)>,
    st: &Status,
)
    requires
        st.in_range(),
        forall|i: int| 0 <= i < places@.len() ==> placeable(#[trigger] places@[i]),
        anchor matches Some(a) ==> placeable(a),
    ensures
        final(page)@ == trail_map(places@, anchor, *st),
{
    page.clear();
    draw_header(page, st);
    draw_grid(page);
    if !st.radio_ok {
        proof {
            reveal_strlit("SX1262 NOT RESPONDING");
        }
        label::draw_label(page, "SX1262 NOT RESPONDING", 240, 98, Font::Large, Align::Center);
    }
    draw_north(page);
    draw_scale(page, st.m_per_px);
    draw_trail(page, places, anchor, st);
    draw_pan_sign(page, st);
    draw_footer(page, st, places.len());
}

/// The start: the one announced, else the oldest position.
pub open spec fn start_of(trail: Seq<GeoPoint>, home: Option<GeoPoint>) -> Option<GeoPoint> {
    if home is Some {
        home
    } else if trail.len() > 0 {
        Some(trail.first())
    } else {
        None
    }
}

/// The start.
pub fn anchor<const N: usize>(trail: &Trail<N>, home: Option<GeoPoint>) -> (a: Option<GeoPoint>)
    ensures
        a == start_of(trail@, home),
{
    match home {
        Some(h) => Some(h),
        None => trail.oldest(),
    }
}

/// A picture that both planes show alike.
pub open spec fn alike(pic: Picture) -> bool {
    pic.bw == pic.red
}

proof fn lemma_alike_painted(pic: Picture, region: Set<(int, int)>, black: bool)
    requires
        alike(pic),
    ensures
        alike(#[trigger] pic.painted(region, black)),
{
    reveal(Picture::painted);
}

proof fn lemma_alike_parts(pic: Picture)
    requires
        alike(pic),
    ensures
        forall|region: Set<(int, int)>, black: bool|
            alike(#[trigger] pic.painted(region, black)),
{
    assert forall|region: Set<(int, int)>, black: bool|
        alike(#[trigger] pic.painted(region, black)) by {
        lemma_alike_painted(pic, region, black);
    }
}

proof fn lemma_alike_lined(pic: Picture, x0: int, y0: int, x1: int, y1: int, clip: bool)
    requires
        alike(pic),
    ensures
        alike(pic.lined(x0, y0, x1, y1, clip)),
{
    lemma_alike_parts(pic);
}

proof fn lemma_alike_outline(pic: Picture, x: int, y: int, o: int)
    requires
        alike(pic),
    ensures
        alike(with_house_outline(pic, x, y, o)),
{
    let a = pic.lined(x - 11, y + 3 + o, x, y - 9 + o, true);
    let b = a.lined(x + 11, y + 3 + o, x, y - 9 + o, true);
    let c = b.lined(x - 11 + o, y + 3, x - 11 + o, y + 14, true);
    let d = c.lined(x + 11 - o, y + 3, x + 11 - o, y + 14, true);
    lemma_alike_parts(pic);
    lemma_alike_parts(a);
    lemma_alike_parts(b);
    lemma_alike_parts(c);
    lemma_alike_parts(d);
}

proof fn lemma_alike_house(pic: Picture, x: int, y: int)
    requires
        alike(pic),
    ensures
        alike(with_house(pic, x, y)),
{
    let a = pic.painted(shapes::clipped(house_inside(x, y), true), false);
    lemma_alike_parts(pic);
    lemma_alike_outline(a, x, y, 0);
    lemma_alike_outline(with_house_outline(a, x, y, 0), x, y, 1);
}

proof fn lemma_alike_way(pic: Picture, places: Seq<(i32, i32)>, n: int)
    requires
        alike(pic),
    ensures
        alike(with_way(pic, places, n)),
    decreases n,
{
    if n > 1 {
        lemma_alike_way(pic, places, n - 1);
        lemma_alike_parts(with_way(pic, places, n - 1));
    }
}

proof fn lemma_alike_marks(pic: Picture, places: Seq<(i32, i32)>, house: bool, k: int)
    requires
        alike(pic),
    ensures
        alike(with_marks(pic, places, house, k)),
    decreases k,
{
    if k > 0 {
        lemma_alike_marks(pic, places, house, k - 1);
        let a = with_marks(pic, places, house, k - 1);
        let x = places[k - 1].0 as int;
        let y = places[k - 1].1 as int;
        let w = a.painted(shapes::clipped(shapes::disk(x, y, 6), true), false);
        let c = a.painted(shapes::clipped(shapes::disk(x, y, 10), true), true);
        lemma_alike_parts(a);
        lemma_alike_parts(w);
        lemma_alike_parts(c);
        lemma_alike_parts(with_waypoint(a, x, y));
        lemma_alike_parts(with_current(a, x, y));
    }
}

proof fn lemma_alike_header(pic: Picture, st: Status)
    requires
        alike(pic),
    ensures
        alike(with_header(pic, st)),
{
    let a = pic.labelled("NOSTOS"@, 12, 42, Font::Large, Align::Left);
    let b = a.labelled(
        text::text_of(text::fit(clock_text(st), 24)),
        PAGE_W - 12,
        30,
        Font::Medium,
        Align::Right,
    );
    let c = b.labelled(
        text::text_of(text::fit(ago_text(st), 24)),
        PAGE_W - 12,
        54,
        Font::Medium,
        Align::Right,
    );
    let d = if st.age_secs matches Some(a) && a <= 90 {
        c.painted(shapes::disk(PAGE_W - 108, 49, 3), true)
    } else {
        c
    };
    lemma_alike_parts(pic);
    lemma_alike_parts(a);
    lemma_alike_parts(b);
    lemma_alike_parts(c);
    lemma_alike_lined(d, 0, 63, PAGE_W - 1, 63, false);
    lemma_alike_lined(
        d.lined(0, 63, PAGE_W - 1, 63, false),
        0,
        64,
        PAGE_W - 1,
        64,
        false,
    );
}

proof fn lemma_alike_north(pic: Picture)
    requires
        alike(pic),
    ensures
        alike(with_north(pic)),
{
    let x = MAP_X0 + 44;
    let y = MAP_Y0 + 38;
    let a = pic.lined(x, y + 16, x, y - 8, true);
    let b = a.lined(x + 1, y + 16, x + 1, y - 8, true);
    let c = b.painted(shapes::clipped(arrow_head(x, y), true), true);
    lemma_alike_parts(pic);
    lemma_alike_parts(a);
    lemma_alike_parts(b);
    lemma_alike_parts(c);
}

proof fn lemma_alike_scale(pic: Picture, m_per_px: u32)
    requires
        alike(pic),
    ensures
        alike(with_scale(pic, m_per_px)),
{
    let x = MAP_X0 + 40;
    let y = MAP_Y1 - 20;
    let a = pic.lined(x, y, x + GRID_PX, y, true);
    let b = a.lined(x, y + 1, x + GRID_PX, y + 1, true);
    let c = b.lined(x, y - 5, x, y + 6, true);
    let d = c.lined(x + GRID_PX, y - 5, x + GRID_PX, y + 6, true);
    lemma_alike_parts(pic);
    lemma_alike_parts(a);
    lemma_alike_parts(b);
    lemma_alike_parts(c);
    lemma_alike_parts(d);
}

proof fn lemma_alike_footer(pic: Picture, st: Status, positions: int)
    requires
        alike(pic),
    ensures
        alike(with_footer(pic, st, positions)),
{
    let a = pic.lined(0, MAP_Y1 as int, PAGE_W - 1, MAP_Y1 as int, false);
    let b = a.lined(0, MAP_Y1 + 1, PAGE_W - 1, MAP_Y1 + 1, false);
    let c = b.labelled(
        text::text_of(text::fit(place_text(st), 48)),
        16,
        MAP_Y1 + 30,
        Font::Large,
        Align::Left,
    );
    let d = c.labelled(
        text::text_of(text::fit(frame_text(st, positions), 56)),
        16,
        MAP_Y1 + 56,
        Font::Medium,
        Align::Left,
    );
    lemma_alike_parts(pic);
    lemma_alike_parts(a);
    lemma_alike_parts(b);
    lemma_alike_parts(c);
    lemma_alike_parts(d);
}

/// The trail map is black and white: both planes show the same points.
pub proof fn law_trail_map_is_mono(
    places: Seq<(i32, i32)>,
    anchor: Option<(i32, i32)>,
    st: Status,
)
    ensures
        alike(trail_map(places, anchor, st)),
{
    let a = with_header(Picture::blank(), st);
    let b = a.painted(grid(), true);
    let c = if st.radio_ok {
        b
    } else {
        b.labelled(
            "SX1262 NOT RESPONDING"@,
            PAGE_W as int / 2,
            MAP_Y0 + 32,
            Font::Large,
            Align::Center,
        )
    };
    lemma_alike_header(Picture::blank(), st);
    lemma_alike_parts(a);
    lemma_alike_parts(b);
    lemma_alike_north(c);
    lemma_alike_scale(with_north(c), st.m_per_px);
    let d = with_scale(with_north(c), st.m_per_px);
    lemma_alike_parts(d);
    let w = with_way(d, places, places.len() as int);
    lemma_alike_way(d, places, places.len() as int);
    let h = match anchor {
        Some(a) => with_house(w, a.0 as int, a.1 as int),
        None => w,
    };
    if let Some(a) = anchor {
        lemma_alike_house(w, a.0 as int, a.1 as int);
    }
    lemma_alike_marks(h, places, st.home is None, places.len() as int);
    let t = with_trail(d, places, anchor, st);
    lemma_alike_parts(t);
    lemma_alike_footer(with_pan_sign(t, st), st, places.len() as int);
}

/// North is up and east is right: a point further east is further right by as much, a point
/// further north further up by as much, and the centre is in the middle of the map.
pub proof fn law_north_is_up(east: int, north: int, by: int)
    ensures
        placed(0, 0) == (239int, 377int),
        placed(east + by, north).0 == placed(east, north).0 + by,
        placed(east + by, north).1 == placed(east, north).1,
        placed(east, north + by).0 == placed(east, north).0,
        placed(east, north + by).1 == placed(east, north).1 - by,
{
}

/// The start is the one that was announced, whatever the trail holds; before one was, the
/// oldest position, and none while there is no position either.
pub proof fn law_start_is_the_oldest(trail: Seq<GeoPoint>, home: Option<GeoPoint>)
    ensures
        home matches Some(h) ==> start_of(trail, home) == Some(h),
        home is None && trail.len() > 0 ==> start_of(trail, home) == Some(trail[0]),
        start_of(trail, home) is None <==> home is None && trail.len() == 0,
{
}

} // verus!
