//! What is to be seen on the trail map, point by point: what is black, what covers what, and
//! that nothing else is drawn.

use vstd::prelude::*;

use crate::draw;
use crate::draw::Status;
use crate::label;
use crate::page;
use crate::page::Picture;
use crate::shapes;
use crate::text;

verus! {

/// Whether a point is black in a picture.
pub open spec fn black(pic: Picture, p: (int, int)) -> bool {
    pic.bw.contains(p)
}

/// Whether a text in the medium or the large font, with its baseline at `y` and aligned at
/// `x` on its left (0), its middle (1) or its right (2), has a point.
pub open spec fn written(
    t: Seq<char>,
    x: int,
    y: int,
    large: bool,
    align: int,
    p: (int, int),
) -> bool {
    page::plane_points(label::text_bitmap(t, x, y, large, align)).contains(p)
}

/// What there is room for of a line.
pub open spec fn cut(line: Seq<u8>, room: int) -> Seq<char> {
    text::text_of(text::fit(line, room))
}

/// The square of the distance of two points.
pub open spec fn apart(p: (int, int), q: (i32, i32)) -> int {
    (p.0 - q.0) * (p.0 - q.0) + (p.1 - q.1) * (p.1 - q.1)
}

proof fn lemma_added(pic: Picture, region: Set<(int, int)>, p: (int, int))
    ensures
        black(pic.painted(region, true), p) <==> black(pic, p) || page::on_page(p)
            && region.contains(p),
{
    page::law_painting(pic, region, true, p);
}

proof fn lemma_taken(pic: Picture, region: Set<(int, int)>, p: (int, int))
    ensures
        black(pic.painted(region, false), p) <==> black(pic, p) && !(page::on_page(p)
            && region.contains(p)),
{
    page::law_painting(pic, region, false, p);
}

/// A text adds its own points and changes no others.
proof fn lemma_text(
    pic: Picture,
    t: Seq<char>,
    x: int,
    y: int,
    font: label::Font,
    align: label::Align,
    p: (int, int),
)
    ensures
        black(pic.labelled(t, x, y, font, align), p) <==> black(pic, p) || written(
            t,
            x,
            y,
            font == label::Font::Large,
            label::align_code(align),
            p,
        ),
{
    lemma_added(
        pic,
        page::plane_points(
            label::text_bitmap(t, x, y, font == label::Font::Large, label::align_code(align)),
        ),
        p,
    );
}

/// A line adds its own points, those on the map only where it is clipped.
proof fn lemma_lined(
    pic: Picture,
    x0: int,
    y0: int,
    x1: int,
    y1: int,
    clip: bool,
    p: (int, int),
)
    ensures
        black(pic.lined(x0, y0, x1, y1, clip), p) <==> black(pic, p) || page::on_page(p)
            && shapes::line_points((x0, y0), (x1, y1)).contains(p) && (clip ==> shapes::in_map(p)),
{
    lemma_added(pic, shapes::clipped(shapes::line_points((x0, y0), (x1, y1)), clip), p);
}

/// Whether a point belongs to the head of the page: the name, the clock, the age, the dot
/// that shows for ninety seconds after a frame, and two rules across the page.
pub open spec fn in_head(st: Status, p: (int, int)) -> bool {
    ||| written("NOSTOS"@, 12, 42, true, 0, p)
    ||| written(cut(draw::clock_text(st), 24), 468, 30, false, 2, p)
    ||| written(cut(draw::ago_text(st), 24), 468, 54, false, 2, p)
    ||| st.age_secs is Some && st.age_secs->Some_0 <= 90 && (p.0 - 372) * (p.0 - 372) + (p.1 - 49)
        * (p.1 - 49) <= 9
    ||| 0 <= p.0 < 480 && (p.1 == 63 || p.1 == 64)
}

/// Whether a point belongs to the foot of the page: two rules across it, where the beacon
/// is, its newest frame, and the way home.
pub open spec fn in_foot(st: Status, positions: int, p: (int, int)) -> bool {
    ||| 0 <= p.0 < 480 && (p.1 == 688 || p.1 == 689)
    ||| written(cut(draw::place_text(st), 48), 16, 718, true, 0, p)
    ||| written(cut(draw::frame_text(st, positions), 56), 16, 744, false, 0, p)
    ||| written(cut(draw::home_text(st), 48), 16, 772, true, 0, p)
}

proof fn lemma_head(pic: Picture, st: Status, p: (int, int))
    requires
        page::on_page(p),
    ensures
        black(draw::with_header(pic, st), p) <==> black(pic, p) || in_head(st, p),
{
    let a = pic.labelled("NOSTOS"@, 12, 42, label::Font::Large, label::Align::Left);
    lemma_text(pic, "NOSTOS"@, 12, 42, label::Font::Large, label::Align::Left, p);
    let t = cut(draw::clock_text(st), 24);
    let b = a.labelled(t, 468, 30, label::Font::Medium, label::Align::Right);
    lemma_text(a, t, 468, 30, label::Font::Medium, label::Align::Right, p);
    let u = cut(draw::ago_text(st), 24);
    let c = b.labelled(u, 468, 54, label::Font::Medium, label::Align::Right);
    lemma_text(b, u, 468, 54, label::Font::Medium, label::Align::Right, p);
    let dot = shapes::disk(372, 49, 3);
    lemma_added(c, dot, p);
    let d = if st.age_secs matches Some(a) && a <= 90 {
        c.painted(dot, true)
    } else {
        c
    };
    lemma_lined(d, 0, 63, 479, 63, false, p);
    lemma_lined(d.lined(0, 63, 479, 63, false), 0, 64, 479, 64, false, p);
    shapes::law_level_line(0, 479, 63);
    shapes::law_level_line(0, 479, 64);
}

proof fn lemma_foot(pic: Picture, st: Status, n: int, p: (int, int))
    requires
        page::on_page(p),
    ensures
        black(draw::with_footer(pic, st, n), p) <==> black(pic, p) || in_foot(st, n, p),
{
    let a = pic.lined(0, 688, 479, 688, false);
    lemma_lined(pic, 0, 688, 479, 688, false, p);
    let b = a.lined(0, 689, 479, 689, false);
    lemma_lined(a, 0, 689, 479, 689, false, p);
    shapes::law_level_line(0, 479, 688);
    shapes::law_level_line(0, 479, 689);
    let t = cut(draw::place_text(st), 48);
    let c = b.labelled(t, 16, 718, label::Font::Large, label::Align::Left);
    lemma_text(b, t, 16, 718, label::Font::Large, label::Align::Left, p);
    let u = cut(draw::frame_text(st, n), 56);
    let d = c.labelled(u, 16, 744, label::Font::Medium, label::Align::Left);
    lemma_text(c, u, 16, 744, label::Font::Medium, label::Align::Left, p);
    let v = cut(draw::home_text(st), 48);
    lemma_text(d, v, 16, 772, label::Font::Large, label::Align::Left, p);
}

/// Whether a point belongs to what stands on the map itself: the grid with its crossing in
/// the middle of the map and eighty points from line to line, the warning while the radio
/// does not answer, the arrow that points up with its letter, and the bar that is as long as
/// a square of the grid with its length.
pub open spec fn in_furniture(st: Status, p: (int, int)) -> bool {
    ||| shapes::in_map(p) && ((p.0 - 239) % 80 == 0 || (p.1 - 377) % 80 == 0)
    ||| !st.radio_ok && written("SX1262 NOT RESPONDING"@, 240, 98, true, 1, p)
    ||| shapes::in_map(p) && (p.0 == 44 || p.0 == 45) && 96 <= p.1 <= 120
    ||| shapes::in_map(p) && 86 <= p.1 <= 96 && p.1 - 86 >= 2 * (p.0 - 44) && p.1 - 86 >= 2 * (44
        - p.0)
    ||| written("N"@, 44, 140, false, 1, p)
    ||| shapes::in_map(p) && 40 <= p.0 <= 120 && (p.1 == 668 || p.1 == 669)
    ||| shapes::in_map(p) && (p.0 == 40 || p.0 == 120) && 663 <= p.1 <= 674
    ||| written(cut(draw::scale_text(st.m_per_px), 16), 80, 658, false, 1, p)
}

/// The page before the trail is drawn on it.
spec fn before_trail(st: Status) -> Picture {
    let pic = draw::with_header(Picture::blank(), st).painted(draw::grid(), true);
    let pic = if st.radio_ok {
        pic
    } else {
        pic.labelled(
            "SX1262 NOT RESPONDING"@,
            240,
            98,
            label::Font::Large,
            label::Align::Center,
        )
    };
    draw::with_scale(draw::with_north(pic), st.m_per_px)
}

proof fn lemma_north(pic: Picture, p: (int, int))
    requires
        page::on_page(p),
    ensures
        black(draw::with_north(pic), p) <==> {
            ||| black(pic, p)
            ||| shapes::in_map(p) && (p.0 == 44 || p.0 == 45) && 96 <= p.1 <= 120
            ||| shapes::in_map(p) && 86 <= p.1 <= 96 && p.1 - 86 >= 2 * (p.0 - 44) && p.1 - 86 >= 2
                * (44 - p.0)
            ||| written("N"@, 44, 140, false, 1, p)
        },
{
    let a = pic.lined(44, 120, 44, 96, true);
    lemma_lined(pic, 44, 120, 44, 96, true, p);
    let b = a.lined(45, 120, 45, 96, true);
    lemma_lined(a, 45, 120, 45, 96, true, p);
    shapes::law_upright_line(44, 120, 96);
    shapes::law_upright_line(45, 120, 96);
    let head = shapes::clipped(draw::arrow_head(44, 104), true);
    lemma_added(b, head, p);
    lemma_text(
        b.painted(head, true),
        "N"@,
        44,
        140,
        label::Font::Medium,
        label::Align::Center,
        p,
    );
}

proof fn lemma_scale(pic: Picture, m_per_px: u32, p: (int, int))
    requires
        page::on_page(p),
    ensures
        black(draw::with_scale(pic, m_per_px), p) <==> {
            ||| black(pic, p)
            ||| shapes::in_map(p) && 40 <= p.0 <= 120 && (p.1 == 668 || p.1 == 669)
            ||| shapes::in_map(p) && (p.0 == 40 || p.0 == 120) && 663 <= p.1 <= 674
            ||| written(cut(draw::scale_text(m_per_px), 16), 80, 658, false, 1, p)
        },
{
    let a = pic.lined(40, 668, 120, 668, true);
    lemma_lined(pic, 40, 668, 120, 668, true, p);
    let b = a.lined(40, 669, 120, 669, true);
    lemma_lined(a, 40, 669, 120, 669, true, p);
    let c = b.lined(40, 663, 40, 674, true);
    lemma_lined(b, 40, 663, 40, 674, true, p);
    let d = c.lined(120, 663, 120, 674, true);
    lemma_lined(c, 120, 663, 120, 674, true, p);
    shapes::law_level_line(40, 120, 668);
    shapes::law_level_line(40, 120, 669);
    shapes::law_upright_line(40, 663, 674);
    shapes::law_upright_line(120, 663, 674);
    lemma_text(
        d,
        cut(draw::scale_text(m_per_px), 16),
        80,
        658,
        label::Font::Medium,
        label::Align::Center,
        p,
    );
}

proof fn lemma_before_trail(st: Status, p: (int, int))
    requires
        page::on_page(p),
    ensures
        black(before_trail(st), p) <==> in_head(st, p) || in_furniture(st, p),
{
    let none = Picture::blank();
    lemma_head(none, st, p);
    let a = draw::with_header(none, st);
    lemma_added(a, draw::grid(), p);
    let b = a.painted(draw::grid(), true);
    lemma_text(
        b,
        "SX1262 NOT RESPONDING"@,
        240,
        98,
        label::Font::Large,
        label::Align::Center,
        p,
    );
    let c = if st.radio_ok {
        b
    } else {
        b.labelled(
            "SX1262 NOT RESPONDING"@,
            240,
            98,
            label::Font::Large,
            label::Align::Center,
        )
    };
    lemma_north(c, p);
    lemma_scale(draw::with_north(c), st.m_per_px, p);
}

/// Whether a point belongs to the dashed way that leads to place `k`.
pub open spec fn in_leg(places: Seq<(i32, i32)>, k: int, p: (int, int)) -> bool {
    let a = places[k - 1];
    let b = places[k];
    shapes::in_map(p) && shapes::dash_points(
        (a.0 as int, a.1 as int),
        (b.0 as int, b.1 as int),
    ).contains(p)
}

proof fn lemma_way(pic: Picture, places: Seq<(i32, i32)>, n: int, p: (int, int))
    requires
        page::on_page(p),
    ensures
        black(draw::with_way(pic, places, n), p) <==> black(pic, p) || exists|k: int|
            1 <= k < n && #[trigger] in_leg(places, k, p),
    decreases n,
{
    if n > 1 {
        lemma_way(pic, places, n - 1, p);
        let a = places[n - 2];
        let b = places[n - 1];
        lemma_added(
            draw::with_way(pic, places, n - 1),
            shapes::clipped(
                shapes::dash_points((a.0 as int, a.1 as int), (b.0 as int, b.1 as int)),
                true,
            ),
            p,
        );
        if in_leg(places, n - 1, p) {
            assert(black(draw::with_way(pic, places, n), p));
        }
    }
}

/// Whether a point belongs to one of the two outlines of the house at a place: the two
/// slopes of its roof, its walls and its floor.
pub open spec fn in_outline(a: (i32, i32), o: int, p: (int, int)) -> bool {
    shapes::in_map(p) && {
        ||| shapes::line_points((a.0 - 11, a.1 + 3 + o), (a.0 as int, a.1 - 9 + o)).contains(p)
        ||| shapes::line_points((a.0 + 11, a.1 + 3 + o), (a.0 as int, a.1 - 9 + o)).contains(p)
        ||| (p.0 == a.0 - 11 + o || p.0 == a.0 + 11 - o) && a.1 + 3 <= p.1 <= a.1 + 14
        ||| a.0 - 11 <= p.0 <= a.0 + 11 && p.1 == a.1 + 14 - o
    }
}

/// Whether a point lies in the house at a place: in its box, 23 points wide and 12 high, or
/// under its gable, which narrows to a point 12 above the box.
pub open spec fn in_house(a: (i32, i32), p: (int, int)) -> bool {
    let dx = if p.0 < a.0 {
        a.0 - p.0
    } else {
        p.0 - a.0
    };
    let dy = p.1 - a.1;
    ||| 3 <= dy <= 14 && dx <= 11
    ||| -9 <= dy < 3 && 12 * dx <= 11 * (dy + 9)
}

proof fn lemma_outline(pic: Picture, a: (i32, i32), o: int, p: (int, int))
    requires
        page::on_page(p),
    ensures
        black(draw::with_house_outline(pic, a.0 as int, a.1 as int, o), p) <==> black(pic, p)
            || in_outline(a, o, p),
{
    let x = a.0 as int;
    let y = a.1 as int;
    let q = pic.lined(x - 11, y + 3 + o, x, y - 9 + o, true);
    lemma_lined(pic, x - 11, y + 3 + o, x, y - 9 + o, true, p);
    let r = q.lined(x + 11, y + 3 + o, x, y - 9 + o, true);
    lemma_lined(q, x + 11, y + 3 + o, x, y - 9 + o, true, p);
    let s = r.lined(x - 11 + o, y + 3, x - 11 + o, y + 14, true);
    lemma_lined(r, x - 11 + o, y + 3, x - 11 + o, y + 14, true, p);
    let t = s.lined(x + 11 - o, y + 3, x + 11 - o, y + 14, true);
    lemma_lined(s, x + 11 - o, y + 3, x + 11 - o, y + 14, true, p);
    lemma_lined(t, x - 11, y + 14 - o, x + 11, y + 14 - o, true, p);
    shapes::law_upright_line(x - 11 + o, y + 3, y + 14);
    shapes::law_upright_line(x + 11 - o, y + 3, y + 14);
    shapes::law_level_line(x - 11, x + 11, y + 14 - o);
}

proof fn lemma_house(pic: Picture, a: (i32, i32), p: (int, int))
    requires
        page::on_page(p),
    ensures
        black(draw::with_house(pic, a.0 as int, a.1 as int), p) <==> black(pic, p) && !(
        shapes::in_map(p) && in_house(a, p)) || in_outline(a, 0, p) || in_outline(a, 1, p),
{
    let inside = shapes::clipped(draw::house_inside(a.0 as int, a.1 as int), true);
    lemma_taken(pic, inside, p);
    let q = pic.painted(inside, false);
    lemma_outline(q, a, 0, p);
    lemma_outline(draw::with_house_outline(q, a.0 as int, a.1 as int, 0), a, 1, p);
}

/// Whether a point belongs to the number of place `k`, which stands right of its mark; or
/// left of the house, where the house is its mark.
pub open spec fn in_number(
    places: Seq<(i32, i32)>,
    house: bool,
    k: int,
    p: (int, int),
) -> bool {
    let a = places[k];
    let number = cut(text::decimal(k + 1), 8);
    if house && k == 0 {
        written(number, a.0 - 16, a.1 + 5, false, 2, p)
    } else {
        written(number, a.0 + 13, a.1 + 5, false, 0, p)
    }
}

/// Whether a point belongs to the mark of place `k`: the newest one has a thick ring from
/// over 4 to 10 points around it, the others have a thin one from 5 to 7. The place that the
/// house stands on has none.
pub open spec fn in_mark(places: Seq<(i32, i32)>, house: bool, k: int, p: (int, int)) -> bool {
    let d = apart(p, places[k]);
    &&& !(house && k == 0)
    &&& shapes::in_map(p)
    &&& k + 1 == places.len() ==> 16 < d <= 100
    &&& k + 1 != places.len() ==> 25 <= d <= 49
}

/// Whether a point lies inside the ring of place `k`, where nothing below it shows.
pub open spec fn in_hole(places: Seq<(i32, i32)>, house: bool, k: int, p: (int, int)) -> bool {
    let d = apart(p, places[k]);
    &&& !(house && k == 0)
    &&& shapes::in_map(p)
    &&& k + 1 == places.len() ==> d <= 16
    &&& k + 1 != places.len() ==> d < 25
}

proof fn lemma_mark(
    pic: Picture,
    places: Seq<(i32, i32)>,
    house: bool,
    k: int,
    p: (int, int),
)
    requires
        page::on_page(p),
        0 <= k < places.len(),
    ensures
        black(draw::with_mark(pic, places[k], k, places.len() as int, house), p) <==> black(pic, p)
            && !in_hole(places, house, k, p) || in_mark(places, house, k, p) || in_number(
            places,
            house,
            k,
            p,
        ),
{
    let a = places[k];
    let x = a.0 as int;
    let y = a.1 as int;
    let number = cut(text::decimal(k + 1), 8);
    let d = apart(p, a);
    assert(shapes::sq(p.0 - x) + shapes::sq(p.1 - y) == d);
    if house && k == 0 {
        lemma_text(pic, number, x - 16, y + 5, label::Font::Medium, label::Align::Right, p);
    } else if k + 1 == places.len() {
        let big = shapes::clipped(shapes::disk(x, y, 10), true);
        let small = shapes::clipped(shapes::disk(x, y, 4), true);
        assert(shapes::sq(10) == 100 && shapes::sq(4) == 16);
        lemma_added(pic, big, p);
        lemma_taken(pic.painted(big, true), small, p);
        lemma_text(
            draw::with_current(pic, x, y),
            number,
            x + 13,
            y + 5,
            label::Font::Medium,
            label::Align::Left,
            p,
        );
    } else {
        let disk = shapes::clipped(shapes::disk(x, y, 6), true);
        let ring = shapes::clipped(shapes::ring(x, y, 7), true);
        assert(shapes::sq(6) == 36 && shapes::sq(7) == 49 && shapes::sq(5) == 25);
        lemma_taken(pic, disk, p);
        lemma_added(pic.painted(disk, false), ring, p);
        lemma_text(
            draw::with_waypoint(pic, x, y),
            number,
            x + 13,
            y + 5,
            label::Font::Medium,
            label::Align::Left,
            p,
        );
    }
}

/// Whether a point lies in no hole of the places from `k` on.
pub open spec fn clear_from(
    places: Seq<(i32, i32)>,
    house: bool,
    k: int,
    p: (int, int),
) -> bool {
    forall|j: int| k <= j < places.len() ==> !#[trigger] in_hole(places, house, j, p)
}

/// Whether a point belongs to the mark or the number of place `k`.
pub open spec fn of_place(places: Seq<(i32, i32)>, house: bool, k: int, p: (int, int)) -> bool {
    in_mark(places, house, k, p) || in_number(places, house, k, p)
}

/// Whether a point belongs to the mark or the number of a place from `from` up to `to`.
pub open spec fn of_places(
    places: Seq<(i32, i32)>,
    house: bool,
    from: int,
    to: int,
    p: (int, int),
) -> bool {
    exists|j: int| from <= j < to && #[trigger] of_place(places, house, j, p)
}

/// What is black before the marks from `from` on are drawn stays black unless one of them
/// has its hole there.
proof fn lemma_marks_leave(
    pic: Picture,
    places: Seq<(i32, i32)>,
    house: bool,
    from: int,
    to: int,
    p: (int, int),
)
    requires
        page::on_page(p),
        0 <= from <= to <= places.len(),
        black(draw::with_marks(pic, places, house, from), p),
        forall|j: int| from <= j < to ==> !#[trigger] in_hole(places, house, j, p),
    ensures
        black(draw::with_marks(pic, places, house, to), p),
    decreases to - from,
{
    if from < to {
        lemma_marks_leave(pic, places, house, from, to - 1, p);
        lemma_mark(
            draw::with_marks(pic, places, house, to - 1),
            places,
            house,
            to - 1,
            p,
        );
        assert(!in_hole(places, house, to - 1, p));
    }
}

/// What is black after the marks from `from` on were drawn belongs to one of them, or was
/// black before.
proof fn lemma_marks_add(
    pic: Picture,
    places: Seq<(i32, i32)>,
    house: bool,
    from: int,
    to: int,
    p: (int, int),
)
    requires
        page::on_page(p),
        0 <= from <= to <= places.len(),
        black(draw::with_marks(pic, places, house, to), p),
    ensures
        black(draw::with_marks(pic, places, house, from), p) || of_places(
            places,
            house,
            from,
            to,
            p,
        ),
    decreases to - from,
{
    if from < to {
        let k = to - 1;
        let before = draw::with_marks(pic, places, house, k);
        lemma_mark(before, places, house, k, p);
        if of_place(places, house, k, p) {
            assert(of_places(places, house, from, to, p));
        } else {
            lemma_marks_add(pic, places, house, from, k, p);
            if of_places(places, house, from, k, p) {
                let j = choose|j: int| from <= j < k && #[trigger] of_place(places, house, j, p);
                assert(from <= j < to && of_place(places, house, j, p));
            }
        }
    }
}

/// Whether there is nothing to show on the map yet: no position, no start, and no centre
/// that the user chose.
pub open spec fn waiting(places: Seq<(i32, i32)>, st: Status) -> bool {
    places.len() == 0 && st.home is None && st.view_center is None
}

/// Whether a point belongs to a line that lies over the map and everything on it: the foot
/// of the page, the sign that the map was moved, and that nothing came yet.
pub open spec fn on_top(places: Seq<(i32, i32)>, st: Status, p: (int, int)) -> bool {
    ||| in_foot(st, places.len() as int, p)
    ||| st.view_center is Some && written("PAN"@, 468, 90, false, 2, p)
    ||| waiting(places, st) && written("WAITING FOR C6L BEACON..."@, 240, 377, true, 1, p)
}

/// Whether a point is covered by the house.
pub open spec fn under_house(
    places: Seq<(i32, i32)>,
    anchor: Option<(i32, i32)>,
    st: Status,
    p: (int, int),
) -> bool {
    !waiting(places, st) && shapes::in_map(p) && anchor is Some && in_house(anchor->Some_0, p)
}

/// Whether a point belongs to the outline of the house.
pub open spec fn of_house(
    places: Seq<(i32, i32)>,
    anchor: Option<(i32, i32)>,
    st: Status,
    p: (int, int),
) -> bool {
    !waiting(places, st) && anchor is Some && (in_outline(anchor->Some_0, 0, p) || in_outline(
        anchor->Some_0,
        1,
        p,
    ))
}

/// The page with the way and the house, before the marks.
spec fn before_marks(
    places: Seq<(i32, i32)>,
    anchor: Option<(i32, i32)>,
    st: Status,
) -> Picture {
    let pic = draw::with_way(before_trail(st), places, places.len() as int);
    match anchor {
        Some(a) => draw::with_house(pic, a.0 as int, a.1 as int),
        None => pic,
    }
}

proof fn lemma_before_marks(
    places: Seq<(i32, i32)>,
    anchor: Option<(i32, i32)>,
    st: Status,
    p: (int, int),
)
    requires
        page::on_page(p),
        !waiting(places, st),
    ensures
        black(before_marks(places, anchor, st), p) <==> {
            ||| of_house(places, anchor, st, p)
            ||| !under_house(places, anchor, st, p) && (in_head(st, p) || in_furniture(st, p)
                || exists|k: int| 1 <= k < places.len() && #[trigger] in_leg(places, k, p))
        },
{
    lemma_before_trail(st, p);
    lemma_way(before_trail(st), places, places.len() as int, p);
    if let Some(a) = anchor {
        lemma_house(draw::with_way(before_trail(st), places, places.len() as int), a, p);
    }
}

proof fn lemma_last_layers(
    places: Seq<(i32, i32)>,
    anchor: Option<(i32, i32)>,
    st: Status,
    p: (int, int),
)
    requires
        page::on_page(p),
    ensures
        waiting(places, st) ==> (black(draw::trail_map(places, anchor, st), p) <==> in_head(st, p)
            || in_furniture(st, p) || on_top(places, st, p)),
        !waiting(places, st) ==> (black(draw::trail_map(places, anchor, st), p) <==> black(
            draw::with_marks(
                before_marks(places, anchor, st),
                places,
                st.home is None,
                places.len() as int,
            ),
            p,
        ) || on_top(places, st, p)),
{
    let pic = before_trail(st);
    let n = places.len() as int;
    let t = draw::with_trail(pic, places, anchor, st);
    let s = draw::with_pan_sign(t, st);
    lemma_before_trail(st, p);
    lemma_text(
        pic,
        "WAITING FOR C6L BEACON..."@,
        240,
        377,
        label::Font::Large,
        label::Align::Center,
        p,
    );
    lemma_text(t, "PAN"@, 468, 90, label::Font::Medium, label::Align::Right, p);
    lemma_foot(s, st, n, p);
    assert(draw::trail_map(places, anchor, st) == draw::with_footer(s, st, n));
}

/// The head of the page is seen wherever it does not reach into the map, the foot of the
/// page everywhere, and so are the sign that the map was moved, while it is, and the line
/// that nothing came yet, until something did.
pub proof fn law_head_and_foot_are_seen(
    places: Seq<(i32, i32)>,
    anchor: Option<(i32, i32)>,
    st: Status,
    p: (int, int),
)
    requires
        page::on_page(p),
    ensures
        in_head(st, p) && !shapes::in_map(p) ==> black(draw::trail_map(places, anchor, st), p),
        on_top(places, st, p) ==> black(draw::trail_map(places, anchor, st), p),
{
    let n = places.len() as int;
    lemma_last_layers(places, anchor, st, p);
    if !waiting(places, st) && in_head(st, p) && !shapes::in_map(p) {
        lemma_before_marks(places, anchor, st, p);
        let pic = before_marks(places, anchor, st);
        assert(draw::with_marks(pic, places, st.home is None, 0) == pic);
        lemma_marks_leave(pic, places, st.home is None, 0, n, p);
    }
}

/// Grid, arrow, scale and warning are seen wherever neither the house nor a mark covers
/// them.
pub proof fn law_furniture_is_seen(
    places: Seq<(i32, i32)>,
    anchor: Option<(i32, i32)>,
    st: Status,
    p: (int, int),
)
    requires
        page::on_page(p),
        in_furniture(st, p),
        !under_house(places, anchor, st, p),
        clear_from(places, st.home is None, 0, p),
    ensures
        black(draw::trail_map(places, anchor, st), p),
{
    let n = places.len() as int;
    lemma_last_layers(places, anchor, st, p);
    if !waiting(places, st) {
        lemma_before_marks(places, anchor, st, p);
        let pic = before_marks(places, anchor, st);
        assert(draw::with_marks(pic, places, st.home is None, 0) == pic);
        lemma_marks_leave(pic, places, st.home is None, 0, n, p);
    }
}

/// The dashes of the way from each place to the next are seen wherever neither the house nor
/// a mark covers them.
pub proof fn law_way_is_seen(
    places: Seq<(i32, i32)>,
    anchor: Option<(i32, i32)>,
    st: Status,
    k: int,
    p: (int, int),
)
    requires
        page::on_page(p),
        1 <= k < places.len(),
        in_leg(places, k, p),
        !under_house(places, anchor, st, p),
        clear_from(places, st.home is None, 0, p),
    ensures
        black(draw::trail_map(places, anchor, st), p),
{
    let n = places.len() as int;
    lemma_last_layers(places, anchor, st, p);
    lemma_before_marks(places, anchor, st, p);
    let pic = before_marks(places, anchor, st);
    assert(draw::with_marks(pic, places, st.home is None, 0) == pic);
    lemma_marks_leave(pic, places, st.home is None, 0, n, p);
}

/// The house stands at the start once there is something to show, and its outline is seen
/// wherever no mark covers it.
pub proof fn law_house_is_seen(
    places: Seq<(i32, i32)>,
    anchor: Option<(i32, i32)>,
    st: Status,
    p: (int, int),
)
    requires
        page::on_page(p),
        of_house(places, anchor, st, p),
        clear_from(places, st.home is None, 0, p),
    ensures
        black(draw::trail_map(places, anchor, st), p),
{
    let n = places.len() as int;
    lemma_last_layers(places, anchor, st, p);
    lemma_before_marks(places, anchor, st, p);
    let pic = before_marks(places, anchor, st);
    assert(draw::with_marks(pic, places, st.home is None, 0) == pic);
    lemma_marks_leave(pic, places, st.home is None, 0, n, p);
}

/// Every place has its mark and its number, counted from 1, and each point of them is seen
/// unless the mark of a newer place covers it. The newest place has the thick ring. Where no
/// start was announced the house stands on the oldest place, which then has only its number.
pub proof fn law_marks_are_seen(
    places: Seq<(i32, i32)>,
    anchor: Option<(i32, i32)>,
    st: Status,
    k: int,
    p: (int, int),
)
    requires
        page::on_page(p),
        0 <= k < places.len(),
        in_mark(places, st.home is None, k, p) || in_number(places, st.home is None, k, p),
        clear_from(places, st.home is None, k + 1, p),
    ensures
        black(draw::trail_map(places, anchor, st), p),
{
    let n = places.len() as int;
    let house = st.home is None;
    let pic = before_marks(places, anchor, st);
    lemma_last_layers(places, anchor, st, p);
    lemma_mark(draw::with_marks(pic, places, house, k), places, house, k, p);
    lemma_marks_leave(pic, places, house, k + 1, n, p);
}

/// A point of a mark is not in its own hole.
proof fn lemma_in_mark_or_hole(
    places: Seq<(i32, i32)>,
    house: bool,
    k: int,
    p: (int, int),
)
    ensures
        !(in_mark(places, house, k, p) && in_hole(places, house, k, p)),
{
}

/// Inside the ring of a place nothing shows of what lies below: a point there is black only
/// if the place's own number, a newer place or a line on top has it.
pub proof fn law_marks_cover(
    places: Seq<(i32, i32)>,
    anchor: Option<(i32, i32)>,
    st: Status,
    k: int,
    p: (int, int),
)
    requires
        page::on_page(p),
        0 <= k < places.len(),
        in_hole(places, st.home is None, k, p),
        black(draw::trail_map(places, anchor, st), p),
        !on_top(places, st, p),
    ensures
        in_number(places, st.home is None, k, p) || of_places(
            places,
            st.home is None,
            k + 1,
            places.len() as int,
            p,
        ),
{
    let n = places.len() as int;
    let house = st.home is None;
    let pic = before_marks(places, anchor, st);
    lemma_last_layers(places, anchor, st, p);
    lemma_mark(draw::with_marks(pic, places, house, k), places, house, k, p);
    lemma_in_mark_or_hole(places, house, k, p);
    lemma_marks_add(pic, places, house, k + 1, n, p);
}

proof fn lemma_seen_through_marks(
    places: Seq<(i32, i32)>,
    anchor: Option<(i32, i32)>,
    st: Status,
    p: (int, int),
)
    requires
        page::on_page(p),
        !waiting(places, st),
        black(draw::trail_map(places, anchor, st), p),
        !on_top(places, st, p),
    ensures
        black(before_marks(places, anchor, st), p) || of_places(
            places,
            st.home is None,
            0,
            places.len() as int,
            p,
        ),
{
    let n = places.len() as int;
    let pic = before_marks(places, anchor, st);
    lemma_last_layers(places, anchor, st, p);
    lemma_marks_add(pic, places, st.home is None, 0, n, p);
    assert(draw::with_marks(pic, places, st.home is None, 0) == pic);
}

/// The house covers what lies below it: a point in it is black only if its outline, a place
/// or a line on top has it.
pub proof fn law_house_covers(
    places: Seq<(i32, i32)>,
    anchor: Option<(i32, i32)>,
    st: Status,
    p: (int, int),
)
    requires
        page::on_page(p),
        under_house(places, anchor, st, p),
        black(draw::trail_map(places, anchor, st), p),
        !on_top(places, st, p),
    ensures
        of_house(places, anchor, st, p) || of_places(
            places,
            st.home is None,
            0,
            places.len() as int,
            p,
        ),
{
    lemma_seen_through_marks(places, anchor, st, p);
    assert(black(before_marks(places, anchor, st), p) ==> of_house(places, anchor, st, p)) by {
        lemma_before_marks(places, anchor, st, p);
    }
}

/// Nothing else is drawn: a black point belongs to the head or the foot of the page, to what
/// stands on the map, to the way, the house, a mark or its number, or to one of the signs
/// over the map.
pub proof fn law_nothing_else_is_drawn(
    places: Seq<(i32, i32)>,
    anchor: Option<(i32, i32)>,
    st: Status,
    p: (int, int),
)
    requires
        page::on_page(p),
        black(draw::trail_map(places, anchor, st), p),
    ensures
        ({
            ||| in_head(st, p)
            ||| in_furniture(st, p)
            ||| on_top(places, st, p)
            ||| of_house(places, anchor, st, p)
            ||| exists|k: int| 1 <= k < places.len() && #[trigger] in_leg(places, k, p)
            ||| of_places(places, st.home is None, 0, places.len() as int, p)
        }),
{
    if waiting(places, st) {
        lemma_last_layers(places, anchor, st, p);
    } else if !on_top(places, st, p) {
        lemma_seen_through_marks(places, anchor, st, p);
        if black(before_marks(places, anchor, st), p) {
            lemma_before_marks(places, anchor, st, p);
        }
    }
}

} // verus!
