//! Shapes on the page, each stated as the set of its points.

use vstd::prelude::*;

use crate::page;
use crate::page::{Page, Picture};

verus! {

/// Left edge of the map; the map lies right of it.
pub const MAP_X0: i64 = 0;

/// Upper edge of the map; the map lies below it.
pub const MAP_Y0: i64 = 66;

/// Right edge of the map; the map lies left of it.
pub const MAP_X1: i64 = 479;

/// Lower edge of the map; the map lies above it.
pub const MAP_Y1: i64 = 688;

/// Coordinates that shapes may have: far more than the page, far less than a machine
/// word.
pub open spec fn drawable(v: int) -> bool {
    -0x1_0000_0000 <= v <= 0x1_0000_0000
}

/// Whether a point lies on the map.
pub open spec fn in_map(p: (int, int)) -> bool {
    MAP_X0 < p.0 < MAP_X1 && MAP_Y0 < p.1 < MAP_Y1
}

/// The points of a region that are shown: those on the map, where it is clipped.
pub open spec fn clipped(region: Set<(int, int)>, clip: bool) -> Set<(int, int)> {
    if clip {
        Set::new(|p: (int, int)| region.contains(p) && in_map(p))
    } else {
        region
    }
}

/// The square of a number.
pub open spec fn sq(v: int) -> int {
    v * v
}

/// The points no farther than `r` from a centre.
pub open spec fn disk(cx: int, cy: int, r: int) -> Set<(int, int)> {
    Set::new(|p: (int, int)| sq(p.0 - cx) + sq(p.1 - cy) <= sq(r))
}

/// The points of a disk that are at least `r - 2` from its centre.
pub open spec fn ring(cx: int, cy: int, r: int) -> Set<(int, int)> {
    Set::new(|p: (int, int)| sq(r - 2) <= sq(p.0 - cx) + sq(p.1 - cy) <= sq(r))
}

/// The points of a row from `x0` to `x1`, both included.
pub open spec fn row(x0: int, x1: int, y: int) -> Set<(int, int)> {
    Set::new(|p: (int, int)| p.1 == y && x0 <= p.0 <= x1)
}

/// The square of two by two points below and right of a point.
pub open spec fn dot2(p: (int, int)) -> Set<(int, int)> {
    Set::new(|q: (int, int)| p.0 <= q.0 <= p.0 + 1 && p.1 <= q.1 <= p.1 + 1)
}

/// Distance of two numbers.
pub open spec fn dist(a: int, b: int) -> int {
    if a < b {
        b - a
    } else {
        a - b
    }
}

/// The whole number nearest to `a / n`; of two that are as near, the greater one.
pub open spec fn nearest(a: int, n: int) -> int {
    if n == 0 {
        0
    } else {
        (2 * a + n) / (2 * n)
    }
}

/// The number of steps of a line: the longer of its two extents.
pub open spec fn line_steps(a: (int, int), b: (int, int)) -> int {
    let dx = dist(a.0, b.0);
    let dy = dist(a.1, b.1);
    if dx >= dy {
        dx
    } else {
        dy
    }
}

/// From `a` towards `b` by `k` of `n` parts, to the nearest whole number.
pub open spec fn towards(a: int, b: int, k: int, n: int) -> int {
    if a < b {
        a + nearest(dist(a, b) * k, n)
    } else {
        a - nearest(dist(a, b) * k, n)
    }
}

/// Point `k` of a line: in each direction the nearest to the true line.
pub open spec fn line_point(a: (int, int), b: (int, int), k: int) -> (int, int) {
    let n = line_steps(a, b);
    (towards(a.0, b.0, k, n), towards(a.1, b.1, k, n))
}

/// The first `n` points of a line.
pub open spec fn line_part(a: (int, int), b: (int, int), n: int) -> Set<(int, int)> {
    Set::new(|p: (int, int)| exists|k: int| 0 <= k < n && p == #[trigger] line_point(a, b, k))
}

/// The points of a line from `a` to `b`.
pub open spec fn line_points(a: (int, int), b: (int, int)) -> Set<(int, int)> {
    line_part(a, b, line_steps(a, b) + 1)
}

/// Whether point `k` of a dashed line is drawn: six are, five are not.
pub open spec fn dash_on(k: int) -> bool {
    k % 11 < 6
}

/// What the first `n` points of a dashed line draw, two by two points for each.
pub open spec fn dash_part(a: (int, int), b: (int, int), n: int) -> Set<(int, int)> {
    Set::new(
        |p: (int, int)|
            exists|k: int|
                0 <= k < n && dash_on(k) && dot2(#[trigger] line_point(a, b, k)).contains(p),
    )
}

/// The points of a dashed line from `a` to `b`.
pub open spec fn dash_points(a: (int, int), b: (int, int)) -> Set<(int, int)> {
    dash_part(a, b, line_steps(a, b) + 1)
}

/// Makes one point black or white, if it is shown.
pub fn point(page: &mut Page, x: i64, y: i64, clip: bool, black: bool)
    ensures
        final(page)@ == old(page)@.painted(
            clipped(set![(x as int, y as int)], clip),
            black,
        ),
{
    let ghost dot: Set<(int, int)> = set![(x as int, y as int)];
    if !clip || x > MAP_X0 && x < MAP_X1 && y > MAP_Y0 && y < MAP_Y1 {
        page.set_px(x, y, black);
        proof {
            page::lemma_painted_same(old(page)@, dot, clipped(dot, clip), black);
        }
    } else {
        proof {
            page::lemma_painted_empty(old(page)@, black);
            page::lemma_painted_same(old(page)@, Set::empty(), clipped(dot, clip), black);
        }
    }
}

/// Adds a region to one that was painted.
proof fn lemma_grow(
    pic: Picture,
    a: Set<(int, int)>,
    b: Set<(int, int)>,
    c: Set<(int, int)>,
    clip: bool,
    black: bool,
)
    requires
        forall|p: (int, int)| c.contains(p) == (a.contains(p) || b.contains(p)),
    ensures
        pic.painted(clipped(a, clip), black).painted(clipped(b, clip), black) == pic.painted(
            clipped(c, clip),
            black,
        ),
{
    page::lemma_painted_union(pic, clipped(a, clip), clipped(b, clip), black);
    page::lemma_painted_same(
        pic,
        clipped(a, clip).union(clipped(b, clip)),
        clipped(c, clip),
        black,
    );
}

proof fn lemma_start(pic: Picture, a: Set<(int, int)>, clip: bool, black: bool)
    requires
        forall|p: (int, int)| !a.contains(p),
    ensures
        pic == pic.painted(clipped(a, clip), black),
{
    page::lemma_painted_empty(pic, black);
    page::lemma_painted_same(pic, Set::empty(), clipped(a, clip), black);
}

/// Paints a row from `x0` to `x1`.
pub fn fill_row(page: &mut Page, x0: i64, x1: i64, y: i64, clip: bool, black: bool)
    requires
        x1 < i64::MAX,
    ensures
        final(page)@ == old(page)@.painted(
            clipped(row(x0 as int, x1 as int, y as int), clip),
            black,
        ),
{
    let mut x: i64 = x0;
    proof {
        lemma_start(page@, row(x0 as int, x0 - 1, y as int), clip, black);
    }
    while x <= x1
        invariant
            x1 < i64::MAX,
            x0 <= x,
            x0 <= x1 ==> x <= x1 + 1,
            x0 > x1 ==> x == x0,
            page@ == old(page)@.painted(clipped(row(x0 as int, x - 1, y as int), clip), black),
        decreases x1 + 1 - x,
    {
        point(page, x, y, clip, black);
        proof {
            lemma_grow(
                old(page)@,
                row(x0 as int, x - 1, y as int),
                set![(x as int, y as int)],
                row(x0 as int, x as int, y as int),
                clip,
                black,
            );
        }
        x += 1;
    }
    proof {
        page::lemma_painted_same(
            old(page)@,
            clipped(row(x0 as int, x - 1, y as int), clip),
            clipped(row(x0 as int, x1 as int, y as int), clip),
            black,
        );
    }
}

/// The points whose squared distance from a centre is between `low` and the square of
/// `r`.
spec fn annulus(cx: int, cy: int, r: int, low: int) -> Set<(int, int)> {
    Set::new(|p: (int, int)| low <= sq(p.0 - cx) + sq(p.1 - cy) <= sq(r))
}

/// The points of an annulus above row `y`, and those left of `x` in that row.
spec fn annulus_part(cx: int, cy: int, r: int, low: int, x: int, y: int) -> Set<(int, int)> {
    Set::new(
        |p: (int, int)|
            annulus(cx, cy, r, low).contains(p) && (p.1 < y || p.1 == y && p.0 < x),
    )
}

/// A disk lies within the square around it.
proof fn lemma_disk_box(a: int, b: int, r: int)
    by (nonlinear_arith)
    requires
        0 <= r,
        a * a + b * b <= r * r,
    ensures
        -r <= a <= r,
        -r <= b <= r,
{
}

/// Paints the points of an annulus.
fn round(page: &mut Page, cx: i64, cy: i64, r: i64, low: i64, clip: bool, black: bool)
    requires
        drawable(cx as int),
        drawable(cy as int),
        0 <= r <= 100,
    ensures
        final(page)@ == old(page)@.painted(
            clipped(annulus(cx as int, cy as int, r as int, low as int), clip),
            black,
        ),
{
    let ghost pic = page@;
    let mut dy: i64 = -r;
    proof {
        let a = annulus_part(cx as int, cy as int, r as int, low as int, cx - r, cy - r);
        assert forall|p: (int, int)| !a.contains(p) by {
            if a.contains(p) {
                lemma_disk_box(p.0 - cx, p.1 - cy, r as int);
            }
        }
        lemma_start(pic, a, clip, black);
    }
    while dy <= r
        invariant
            drawable(cx as int),
            drawable(cy as int),
            0 <= r <= 100,
            -r <= dy <= r + 1,
            page@ == pic.painted(
                clipped(
                    annulus_part(cx as int, cy as int, r as int, low as int, cx - r, cy + dy),
                    clip,
                ),
                black,
            ),
        decreases r + 1 - dy,
    {
        let mut dx: i64 = -r;
        while dx <= r
            invariant
                drawable(cx as int),
                drawable(cy as int),
                0 <= r <= 100,
                -r <= dy <= r,
                -r <= dx <= r + 1,
                page@ == pic.painted(
                    clipped(
                        annulus_part(cx as int, cy as int, r as int, low as int, cx + dx, cy + dy),
                        clip,
                    ),
                    black,
                ),
            decreases r + 1 - dx,
        {
            proof {
                assert(0 <= dx * dx <= 10000 && 0 <= dy * dy <= 10000 && 0 <= r * r <= 10000)
                    by (nonlinear_arith)
                    requires
                        -100 <= dx <= 100,
                        -100 <= dy <= 100,
                        0 <= r <= 100,
                ;
            }
            let d2: i64 = dx * dx + dy * dy;
            let ghost here: (int, int) = (cx + dx, cy + dy);
            let ghost a = annulus_part(
                cx as int,
                cy as int,
                r as int,
                low as int,
                cx + dx,
                cy + dy,
            );
            let ghost c = annulus_part(
                cx as int,
                cy as int,
                r as int,
                low as int,
                cx + dx + 1,
                cy + dy,
            );
            if low <= d2 && d2 <= r * r {
                point(page, cx + dx, cy + dy, clip, black);
                proof {
                    lemma_grow(pic, a, set![here], c, clip, black);
                }
            } else {
                proof {
                    assert forall|p: (int, int)| c.contains(p) == a.contains(p) by {
                        if p.0 == here.0 && p.1 == here.1 {
                            assert(!c.contains(p));
                        }
                    }
                    page::lemma_painted_same(pic, clipped(a, clip), clipped(c, clip), black);
                }
            }
            dx += 1;
        }
        proof {
            let a = annulus_part(cx as int, cy as int, r as int, low as int, cx + r + 1, cy + dy);
            let c = annulus_part(cx as int, cy as int, r as int, low as int, cx - r, cy + dy + 1);
            assert forall|p: (int, int)| c.contains(p) == a.contains(p) by {
                if annulus(cx as int, cy as int, r as int, low as int).contains(p) {
                    lemma_disk_box(p.0 - cx, p.1 - cy, r as int);
                }
            }
            page::lemma_painted_same(pic, clipped(a, clip), clipped(c, clip), black);
        }
        dy += 1;
    }
    proof {
        let a = annulus_part(cx as int, cy as int, r as int, low as int, cx - r, cy + r + 1);
        let c = annulus(cx as int, cy as int, r as int, low as int);
        assert forall|p: (int, int)| c.contains(p) == a.contains(p) by {
            if c.contains(p) {
                lemma_disk_box(p.0 - cx, p.1 - cy, r as int);
            }
        }
        page::lemma_painted_same(pic, clipped(a, clip), clipped(c, clip), black);
    }
}

/// Paints a disk.
pub fn fill_disk(page: &mut Page, cx: i64, cy: i64, r: i64, clip: bool, black: bool)
    requires
        drawable(cx as int),
        drawable(cy as int),
        0 <= r <= 100,
    ensures
        final(page)@ == old(page)@.painted(
            clipped(disk(cx as int, cy as int, r as int), clip),
            black,
        ),
{
    round(page, cx, cy, r, 0, clip, black);
    proof {
        let a = annulus(cx as int, cy as int, r as int, 0);
        let c = disk(cx as int, cy as int, r as int);
        assert forall|p: (int, int)| c.contains(p) == a.contains(p) by {
            let x = p.0 - cx;
            let y = p.1 - cy;
            assert(x * x >= 0 && y * y >= 0) by (nonlinear_arith);
        }
        page::lemma_painted_same(old(page)@, clipped(a, clip), clipped(c, clip), black);
    }
}

/// Draws a ring in black.
pub fn draw_ring(page: &mut Page, cx: i64, cy: i64, r: i64, clip: bool)
    requires
        drawable(cx as int),
        drawable(cy as int),
        2 <= r <= 100,
    ensures
        final(page)@ == old(page)@.painted(
            clipped(ring(cx as int, cy as int, r as int), clip),
            true,
        ),
{
    proof {
        assert((r - 2) * (r - 2) <= 10000) by (nonlinear_arith)
            requires
                2 <= r <= 100,
        ;
    }
    round(page, cx, cy, r, (r - 2) * (r - 2), clip, true);
    proof {
        let a = annulus(cx as int, cy as int, r as int, (r - 2) * (r - 2));
        let c = ring(cx as int, cy as int, r as int);
        page::lemma_painted_same(old(page)@, clipped(a, clip), clipped(c, clip), true);
    }
}

/// `j` is the nearest whole number to `m * k / n`.
spec fn rounds(n: int, m: int, k: int, j: int) -> bool {
    2 * (n * j) <= 2 * (m * k) + n < 2 * (n * j) + 2 * n
}

proof fn lemma_rounds(n: int, m: int, k: int, j: int)
    requires
        n > 0,
        rounds(n, m, k, j),
    ensures
        j == nearest(m * k, n),
{
    let a = 2 * (m * k) + n;
    assert(2 * (n * j) == j * (2 * n)) by (nonlinear_arith);
    vstd::arithmetic::div_mod::lemma_fundamental_div_mod_converse(a, 2 * n, j, a - j * (2 * n));
}

/// One step along a line: the longer side advances, the shorter one where that is
/// nearer.
proof fn lemma_line_step(n: int, m: int, k: int, j: int)
    requires
        0 <= m <= n,
        0 < n,
        0 <= k,
        rounds(n, m, k, j),
    ensures
        n * (j + 1) == n * j + n,
        m * (k + 1) == m * k + m,
        n * (j + 2) == n * j + 2 * n,
        m * (k + 2) == m * k + 2 * m,
        2 * (n * (j + 1)) - 2 * (m * (k + 1)) >= -m,
        if 2 * (n * (j + 1)) - 2 * (m * (k + 1)) <= n {
            rounds(n, m, k + 1, j + 1)
        } else {
            rounds(n, m, k + 1, j)
        },
{
    assert(n * (j + 1) == n * j + n) by (nonlinear_arith);
    assert(m * (k + 1) == m * k + m) by (nonlinear_arith);
    assert(n * (j + 2) == n * j + 2 * n) by (nonlinear_arith);
    assert(m * (k + 2) == m * k + 2 * m) by (nonlinear_arith);
}

/// Where a line starts and ends.
proof fn lemma_line_ends(n: int, m: int, j: int)
    requires
        0 <= m <= n,
        0 < n,
        rounds(n, m, n, j),
    ensures
        j == m,
{
    assert(m * n == n * m) by (nonlinear_arith);
    assert(j == m) by (nonlinear_arith)
        requires
            0 < n,
            2 * (n * j) <= 2 * (n * m) + n,
            2 * (n * m) + n < 2 * (n * j) + 2 * n,
    ;
}

/// A walk along the points of a line.
pub struct LineWalk {
    x: i64,
    y: i64,
    x1: i64,
    y1: i64,
    dx: i64,
    dy: i64,
    sx: i64,
    sy: i64,
    err: i64,
    start: Ghost<(int, int)>,
    k: Ghost<int>,
}

impl LineWalk {
    /// Where the line starts.
    pub closed spec fn from(self) -> (int, int) {
        self.start@
    }

    /// Where the line ends.
    pub closed spec fn to(self) -> (int, int) {
        (self.x1 as int, self.y1 as int)
    }

    /// Number of the point that the walk is at.
    pub closed spec fn index(self) -> int {
        self.k@
    }

    /// The point that the walk is at.
    pub closed spec fn at(self) -> (int, int) {
        (self.x as int, self.y as int)
    }

    /// The walk is on its line.
    pub closed spec fn on_line(self) -> bool {
        let a = self.start@;
        let n = line_steps(a, self.to());
        let k = self.k@;
        let i = if self.sx > 0 {
            self.x - a.0
        } else {
            a.0 - self.x
        };
        let j = if self.sy > 0 {
            self.y - a.1
        } else {
            a.1 - self.y
        };
        &&& drawable(a.0) && drawable(a.1) && drawable(self.x1 as int) && drawable(self.y1 as int)
        &&& self.sx == if a.0 < self.x1 { 1int } else { -1 }
        &&& self.sy == if a.1 < self.y1 { 1int } else { -1 }
        &&& self.dx == dist(a.0, self.x1 as int)
        &&& self.dy == dist(a.1, self.y1 as int)
        &&& 0 <= k <= n
        &&& n == 0 ==> i == 0 && j == 0
        &&& n > 0 ==> rounds(n, self.dx as int, k, i) && rounds(n, self.dy as int, k, j)
        &&& 0 <= i <= self.dx && 0 <= j <= self.dy
        &&& (if self.dx >= self.dy {
            i == k && self.err == self.dx * (j + 1) - self.dy * (k + 1)
        } else {
            j == k && self.err == self.dx * (k + 1) - self.dy * (i + 1)
        })
    }

    /// A walk at the first point of a line.
    pub fn new(x0: i64, y0: i64, x1: i64, y1: i64) -> (w: Self)
        requires
            drawable(x0 as int),
            drawable(y0 as int),
            drawable(x1 as int),
            drawable(y1 as int),
        ensures
            w.on_line(),
            w.from() == (x0 as int, y0 as int),
            w.to() == (x1 as int, y1 as int),
            w.index() == 0,
    {
        let dx: i64 = if x0 < x1 {
            x1 - x0
        } else {
            x0 - x1
        };
        let dy: i64 = if y0 < y1 {
            y1 - y0
        } else {
            y0 - y1
        };
        proof {
            let n = if dx >= dy {
                dx as int
            } else {
                dy as int
            };
            assert(n * 0 == 0 && dx * 0 == 0 && dy * 0 == 0) by (nonlinear_arith);
            assert(dx * (0 + 1) == dx && dy * (0 + 1) == dy) by (nonlinear_arith);
        }
        LineWalk {
            x: x0,
            y: y0,
            x1,
            y1,
            dx,
            dy,
            sx: if x0 < x1 {
                1
            } else {
                -1
            },
            sy: if y0 < y1 {
                1
            } else {
                -1
            },
            err: dx - dy,
            start: Ghost((x0 as int, y0 as int)),
            k: Ghost(0),
        }
    }

    /// The point that the walk is at.
    pub fn here(&self) -> (p: (i64, i64))
        requires
            self.on_line(),
        ensures
            (p.0 as int, p.1 as int) == line_point(self.from(), self.to(), self.index()),
            drawable(p.0 as int),
            drawable(p.1 as int),
            0 <= self.index() <= line_steps(self.from(), self.to()),
    {
        proof {
            let n = line_steps(self.from(), self.to());
            if n > 0 {
                let a = self.start@;
                let i = if self.sx > 0 {
                    self.x - a.0
                } else {
                    a.0 - self.x
                };
                let j = if self.sy > 0 {
                    self.y - a.1
                } else {
                    a.1 - self.y
                };
                lemma_rounds(n, self.dx as int, self.k@, i);
                lemma_rounds(n, self.dy as int, self.k@, j);
            }
        }
        (self.x, self.y)
    }

    /// Goes on to the next point, if there is one.
    pub fn advance(&mut self) -> (more: bool)
        requires
            old(self).on_line(),
        ensures
            final(self).on_line(),
            final(self).from() == old(self).from(),
            final(self).to() == old(self).to(),
            more == (old(self).index() < line_steps(old(self).from(), old(self).to())),
            final(self).index() == old(self).index() + if more {
                1int
            } else {
                0
            },
    {
        let ghost a = self.start@;
        let ghost n = line_steps(a, self.to());
        let ghost k = self.k@;
        let ghost i = if self.sx > 0 {
            self.x - a.0
        } else {
            a.0 - self.x
        };
        let ghost j = if self.sy > 0 {
            self.y - a.1
        } else {
            a.1 - self.y
        };
        let ghost dx = self.dx as int;
        let ghost dy = self.dy as int;
        proof {
            if n > 0 && k == n {
                lemma_line_ends(n, dx, i);
                lemma_line_ends(n, dy, j);
            }
        }
        if self.x == self.x1 && self.y == self.y1 {
            return false;
        }
        proof {
            if dx >= dy {
                lemma_line_step(n, dy, k, j);
                lemma_line_step(n, dx, k, i);
            } else {
                lemma_line_step(n, dx, k, i);
                lemma_line_step(n, dy, k, j);
            }
        }
        let e2: i64 = 2 * self.err;
        if e2 >= -self.dy {
            self.err = self.err - self.dy;
            self.x = self.x + self.sx;
        }
        if e2 <= self.dx {
            self.err = self.err + self.dx;
            self.y = self.y + self.sy;
        }
        proof {
            self.k@ = k + 1;
            let i2 = if self.sx > 0 {
                self.x - a.0
            } else {
                a.0 - self.x
            };
            let j2 = if self.sy > 0 {
                self.y - a.1
            } else {
                a.1 - self.y
            };
            assert(rounds(n, dx, k + 1, i2) && rounds(n, dy, k + 1, j2));
            lemma_line_within(n, dx, k + 1, i2);
            lemma_line_within(n, dy, k + 1, j2);
        }
        true
    }
}

/// A line keeps within the extent of its ends.
proof fn lemma_line_within(n: int, m: int, k: int, j: int)
    requires
        0 <= m <= n,
        0 < n,
        0 <= k <= n,
        rounds(n, m, k, j),
    ensures
        0 <= j <= m,
{
    assert(0 <= m * k <= m * n) by (nonlinear_arith)
        requires
            0 <= m,
            0 <= k <= n,
    ;
    assert(m * n == n * m) by (nonlinear_arith);
    assert(j <= m) by (nonlinear_arith)
        requires
            0 < n,
            2 * (n * j) <= 2 * (n * m) + n,
    ;
    assert(0 <= j) by (nonlinear_arith)
        requires
            0 < n,
            n < 2 * (n * j) + 2 * n,
    ;
}

/// Draws a line in black.
pub fn draw_line(page: &mut Page, x0: i64, y0: i64, x1: i64, y1: i64, clip: bool)
    requires
        drawable(x0 as int),
        drawable(y0 as int),
        drawable(x1 as int),
        drawable(y1 as int),
    ensures
        final(page)@ == old(page)@.painted(
            clipped(line_points((x0 as int, y0 as int), (x1 as int, y1 as int)), clip),
            true,
        ),
{
    let ghost a: (int, int) = (x0 as int, y0 as int);
    let ghost b: (int, int) = (x1 as int, y1 as int);
    let mut walk = LineWalk::new(x0, y0, x1, y1);
    let mut more: bool = true;
    proof {
        lemma_start(page@, line_part(a, b, 0), clip, true);
    }
    while more
        invariant
            walk.on_line(),
            walk.from() == a,
            walk.to() == b,
            0 <= walk.index() <= line_steps(a, b),
            !more ==> walk.index() == line_steps(a, b),
            page@ == old(page)@.painted(
                clipped(line_part(a, b, walk.index() + if more { 0int } else { 1 }), clip),
                true,
            ),
        decreases line_steps(a, b) - walk.index() + if more { 1int } else { 0 },
    {
        let (x, y) = walk.here();
        let ghost k = walk.index();
        point(page, x, y, clip, true);
        proof {
            let dot: Set<(int, int)> = set![(x as int, y as int)];
            let c = line_part(a, b, k + 1);
            assert forall|p: (int, int)|
                c.contains(p) == (line_part(a, b, k).contains(p) || dot.contains(p)) by {
                if dot.contains(p) {
                    assert(p == line_point(a, b, k));
                }
            }
            lemma_grow(old(page)@, line_part(a, b, k), dot, c, clip, true);
        }
        more = walk.advance();
    }
}

/// Draws a dashed line in black, two points thick.
pub fn draw_dashes(page: &mut Page, x0: i64, y0: i64, x1: i64, y1: i64, clip: bool)
    requires
        drawable(x0 as int),
        drawable(y0 as int),
        drawable(x1 as int),
        drawable(y1 as int),
    ensures
        final(page)@ == old(page)@.painted(
            clipped(dash_points((x0 as int, y0 as int), (x1 as int, y1 as int)), clip),
            true,
        ),
{
    let ghost a: (int, int) = (x0 as int, y0 as int);
    let ghost b: (int, int) = (x1 as int, y1 as int);
    let mut walk = LineWalk::new(x0, y0, x1, y1);
    let mut more: bool = true;
    let mut phase: u32 = 0;
    proof {
        lemma_start(page@, dash_part(a, b, 0), clip, true);
    }
    while more
        invariant
            walk.on_line(),
            walk.from() == a,
            walk.to() == b,
            0 <= walk.index() <= line_steps(a, b),
            !more ==> walk.index() == line_steps(a, b),
            more ==> phase == walk.index() % 11,
            page@ == old(page)@.painted(
                clipped(dash_part(a, b, walk.index() + if more { 0int } else { 1 }), clip),
                true,
            ),
        decreases line_steps(a, b) - walk.index() + if more { 1int } else { 0 },
    {
        let (x, y) = walk.here();
        let ghost k = walk.index();
        let ghost p0: (int, int) = (x as int, y as int);
        let ghost c = dash_part(a, b, k + 1);
        if phase < 6 {
            fill_row(page, x, x + 1, y, clip, true);
            fill_row(page, x, x + 1, y + 1, clip, true);
            proof {
                let upper = row(p0.0, p0.0 + 1, p0.1);
                let lower = row(p0.0, p0.0 + 1, p0.1 + 1);
                let half = Set::new(
                    |p: (int, int)| dash_part(a, b, k).contains(p) || upper.contains(p),
                );
                lemma_grow(old(page)@, dash_part(a, b, k), upper, half, clip, true);
                assert forall|p: (int, int)|
                    c.contains(p) == (half.contains(p) || lower.contains(p)) by {
                    if upper.contains(p) || lower.contains(p) {
                        assert(dash_on(k) && dot2(line_point(a, b, k)).contains(p));
                    }
                }
                lemma_grow(old(page)@, half, lower, c, clip, true);
            }
        } else {
            proof {
                assert forall|p: (int, int)| c.contains(p) == dash_part(a, b, k).contains(p) by {}
                page::lemma_painted_same(
                    old(page)@,
                    clipped(dash_part(a, b, k), clip),
                    clipped(c, clip),
                    true,
                );
            }
        }
        more = walk.advance();
        phase = if phase == 10 {
            0
        } else {
            phase + 1
        };
    }
}

proof fn lemma_nearest_rounds(n: int, m: int, k: int)
    requires
        n > 0,
    ensures
        rounds(n, m, k, nearest(m * k, n)),
{
    let a = 2 * (m * k) + n;
    let j = nearest(m * k, n);
    vstd::arithmetic::div_mod::lemma_fundamental_div_mod(a, 2 * n);
    assert((2 * n) * j == 2 * (n * j)) by (nonlinear_arith);
}

/// A line starts and ends at its ends.
pub proof fn law_line_has_its_ends(a: (int, int), b: (int, int))
    ensures
        line_point(a, b, 0) == a,
        line_point(a, b, line_steps(a, b)) == b,
        line_points(a, b).contains(a),
        line_points(a, b).contains(b),
{
    let n = line_steps(a, b);
    let dx = dist(a.0, b.0);
    let dy = dist(a.1, b.1);
    if n > 0 {
        assert(dx * 0 == 0 && dy * 0 == 0 && n * 0 == 0) by (nonlinear_arith);
        lemma_rounds(n, dx, 0, 0);
        lemma_rounds(n, dy, 0, 0);
        lemma_nearest_rounds(n, dx, n);
        lemma_nearest_rounds(n, dy, n);
        lemma_line_ends(n, dx, nearest(dx * n, n));
        lemma_line_ends(n, dy, nearest(dy * n, n));
    }
    assert(line_points(a, b).contains(line_point(a, b, 0)));
    assert(line_points(a, b).contains(line_point(a, b, n)));
}

/// A line has no gaps: from one point to the next it goes at most one point in each
/// direction, and exactly one in the direction in which it is longer.
pub proof fn law_line_has_no_gaps(a: (int, int), b: (int, int), k: int)
    requires
        0 <= k < line_steps(a, b),
    ensures
        ({
            let p = line_point(a, b, k);
            let q = line_point(a, b, k + 1);
            &&& dist(p.0, q.0) <= 1
            &&& dist(p.1, q.1) <= 1
            &&& dist(a.0, b.0) >= dist(a.1, b.1) ==> dist(p.0, q.0) == 1
            &&& dist(a.1, b.1) >= dist(a.0, b.0) ==> dist(p.1, q.1) == 1
        }),
{
    let n = line_steps(a, b);
    let dx = dist(a.0, b.0);
    let dy = dist(a.1, b.1);
    lemma_side_steps(n, dx, k);
    lemma_side_steps(n, dy, k);
}

/// How one side of a line goes on.
proof fn lemma_side_steps(n: int, m: int, k: int)
    requires
        0 <= m <= n,
        0 < n,
        0 <= k,
    ensures
        nearest(m * k, n) <= nearest(m * (k + 1), n) <= nearest(m * k, n) + 1,
        m == n ==> nearest(m * (k + 1), n) == nearest(m * k, n) + 1,
{
    let j = nearest(m * k, n);
    lemma_nearest_rounds(n, m, k);
    lemma_line_step(n, m, k, j);
    if 2 * (n * (j + 1)) - 2 * (m * (k + 1)) <= n {
        lemma_rounds(n, m, k + 1, j + 1);
    } else {
        lemma_rounds(n, m, k + 1, j);
    }
    if m == n {
        assert(n * k == m * k);
        lemma_rounds(n, m, k, k);
        lemma_rounds(n, m, k + 1, k + 1);
    }
}

/// A line is as near to the true line as points can be: at most half a point away in
/// each direction.
pub proof fn law_line_is_near(a: (int, int), b: (int, int), k: int)
    requires
        0 <= k <= line_steps(a, b),
    ensures
        ({
            let n = line_steps(a, b);
            let p = line_point(a, b, k);
            &&& 2 * dist(n * (p.0 - a.0), (b.0 - a.0) * k) <= n
            &&& 2 * dist(n * (p.1 - a.1), (b.1 - a.1) * k) <= n
        }),
{
    let n = line_steps(a, b);
    let p = line_point(a, b, k);
    if n > 0 {
        lemma_side_near(n, a.0, b.0, k);
        lemma_side_near(n, a.1, b.1, k);
    } else {
        assert(n * (p.0 - a.0) == 0 && n * (p.1 - a.1) == 0) by (nonlinear_arith)
            requires
                n == 0,
        ;
        assert((b.0 - a.0) * k == 0 && (b.1 - a.1) * k == 0) by (nonlinear_arith)
            requires
                k == 0,
        ;
    }
}

proof fn lemma_side_near(n: int, a: int, b: int, k: int)
    requires
        0 < n,
    ensures
        2 * dist(n * (towards(a, b, k, n) - a), (b - a) * k) <= n,
{
    let m = dist(a, b);
    let j = nearest(m * k, n);
    lemma_nearest_rounds(n, m, k);
    assert(n * (-j) == -(n * j)) by (nonlinear_arith);
    assert((-m) * k == -(m * k)) by (nonlinear_arith);
}

/// An upright line is every point between its ends.
pub proof fn law_upright_line(x: int, y0: int, y1: int)
    ensures
        forall|p: (int, int)|
            line_points((x, y0), (x, y1)).contains(p) <==> p.0 == x && (y0 <= p.1 <= y1 || y1 <= p.1
                <= y0),
{
    let a = (x, y0);
    let b = (x, y1);
    let n = line_steps(a, b);
    assert forall|k: int| 0 <= k <= n implies #[trigger] line_point(a, b, k) == (
        x,
        if y0 < y1 {
            y0 + k
        } else {
            y0 - k
        },
    ) by {
        lemma_straight(n, k);
    }
    assert forall|p: (int, int)|
        line_points(a, b).contains(p) <==> p.0 == x && (y0 <= p.1 <= y1 || y1 <= p.1 <= y0) by {
        if p.0 == x && (y0 <= p.1 <= y1 || y1 <= p.1 <= y0) {
            assert(line_point(a, b, dist(y0, p.1)) == p);
        }
    }
}

/// A level line is every point between its ends.
pub proof fn law_level_line(x0: int, x1: int, y: int)
    ensures
        forall|p: (int, int)|
            line_points((x0, y), (x1, y)).contains(p) <==> p.1 == y && (x0 <= p.0 <= x1 || x1 <= p.0
                <= x0),
{
    let a = (x0, y);
    let b = (x1, y);
    let n = line_steps(a, b);
    assert forall|k: int| 0 <= k <= n implies #[trigger] line_point(a, b, k) == (
        if x0 < x1 {
            x0 + k
        } else {
            x0 - k
        },
        y,
    ) by {
        lemma_straight(n, k);
    }
    assert forall|p: (int, int)|
        line_points(a, b).contains(p) <==> p.1 == y && (x0 <= p.0 <= x1 || x1 <= p.0 <= x0) by {
        if p.1 == y && (x0 <= p.0 <= x1 || x1 <= p.0 <= x0) {
            assert(line_point(a, b, dist(x0, p.0)) == p);
        }
    }
}

proof fn lemma_straight(n: int, k: int)
    requires
        0 <= k <= n,
    ensures
        nearest(n * k, n) == k,
        nearest(0 * k, n) == 0,
{
    if n > 0 {
        lemma_rounds(n, n, k, k);
        assert(n * 0 == 0) by (nonlinear_arith);
        lemma_rounds(n, 0, k, 0);
    }
}

/// What is drawn on the map leaves everything around the map as it was.
pub proof fn law_map_keeps_to_itself(
    pic: Picture,
    region: Set<(int, int)>,
    black: bool,
    p: (int, int),
)
    requires
        !in_map(p),
    ensures
        pic.painted(clipped(region, true), black).bw.contains(p) == pic.bw.contains(p),
        pic.painted(clipped(region, true), black).red.contains(p) == pic.red.contains(p),
{
    reveal(Picture::painted);
}

/// The map lies within the page: all of its width but the outermost points, and between the
/// rules of the head and the foot.
pub proof fn law_map_bounds(p: (int, int))
    ensures
        in_map(p) <==> 1 <= p.0 <= 478 && 67 <= p.1 <= 687,
        in_map(p) ==> page::on_page(p),
{
}

/// Six points in a row of a dashed line are drawn and five are not, from its first point on;
/// each that is draws a square of two by two points, and nothing else is drawn.
pub proof fn law_dashes(a: (int, int), b: (int, int), k: int, p: (int, int))
    ensures
        0 <= k <= line_steps(a, b) && k % 11 <= 5 && 0 <= p.0 - line_point(a, b, k).0 <= 1 && 0
            <= p.1 - line_point(a, b, k).1 <= 1 ==> dash_points(a, b).contains(p),
        dash_points(a, b).contains(p) ==> exists|j: int|
            0 <= j <= line_steps(a, b) && j % 11 <= 5 && 0 <= p.0 - (#[trigger] line_point(
                a,
                b,
                j,
            )).0 <= 1 && 0 <= p.1 - line_point(a, b, j).1 <= 1,
{
    if 0 <= k <= line_steps(a, b) && dash_on(k) {
        if dot2(line_point(a, b, k)).contains(p) {
            assert(dash_points(a, b).contains(p));
        }
    }
    if dash_points(a, b).contains(p) {
        let j = choose|j: int|
            0 <= j < line_steps(a, b) + 1 && dash_on(j) && dot2(#[trigger] line_point(a, b, j))
                .contains(p);
        assert(line_point(a, b, j).0 <= p.0);
    }
}

/// A line has as many steps as its longer side, and goes on its way in each direction without
/// turning back: at each step it is as far from its start as the true line, to the nearest
/// point, and of two that are as near it takes the farther one.
pub proof fn law_line_rounds_onward(a: (int, int), b: (int, int), k: int)
    requires
        0 <= k <= line_steps(a, b),
        0 < line_steps(a, b),
    ensures
        ({
            let n = line_steps(a, b);
            let p = line_point(a, b, k);
            let dx = dist(a.0, b.0);
            let dy = dist(a.1, b.1);
            let i = dist(a.0, p.0);
            let j = dist(a.1, p.1);
            &&& n >= dx && n >= dy && (n == dx || n == dy)
            &&& a.0 <= b.0 ==> a.0 <= p.0
            &&& a.0 >= b.0 ==> a.0 >= p.0
            &&& a.1 <= b.1 ==> a.1 <= p.1
            &&& a.1 >= b.1 ==> a.1 >= p.1
            &&& 2 * (n * i) <= 2 * (dx * k) + n < 2 * (n * i) + 2 * n
            &&& 2 * (n * j) <= 2 * (dy * k) + n < 2 * (n * j) + 2 * n
        }),
{
    let n = line_steps(a, b);
    lemma_nearest_bounds(dist(a.0, b.0) * k, n);
    lemma_nearest_bounds(dist(a.1, b.1) * k, n);
    assert(dist(a.0, b.0) * k >= 0 && dist(a.1, b.1) * k >= 0) by (nonlinear_arith)
        requires
            k >= 0,
            dist(a.0, b.0) >= 0,
            dist(a.1, b.1) >= 0,
    ;
    if a.0 == b.0 {
        assert(dist(a.0, b.0) * k == 0) by (nonlinear_arith)
            requires
                dist(a.0, b.0) == 0,
        ;
        lemma_nearest_zero(n);
    }
    if a.1 == b.1 {
        assert(dist(a.1, b.1) * k == 0) by (nonlinear_arith)
            requires
                dist(a.1, b.1) == 0,
        ;
        lemma_nearest_zero(n);
    }
}

proof fn lemma_nearest_bounds(v: int, n: int)
    requires
        0 < n,
    ensures
        2 * (n * nearest(v, n)) <= 2 * v + n < 2 * (n * nearest(v, n)) + 2 * n,
        v >= 0 ==> nearest(v, n) >= 0,
{
    let q = nearest(v, n);
    let w = 2 * v + n;
    let m = 2 * n;
    vstd::arithmetic::div_mod::lemma_fundamental_div_mod(w, m);
    vstd::arithmetic::div_mod::lemma_mod_bound(w, m);
    assert(m * q == 2 * (n * q)) by (nonlinear_arith)
        requires
            m == 2 * n,
    ;
    if v >= 0 {
        vstd::arithmetic::div_mod::lemma_div_pos_is_pos(w, m);
    }
}

proof fn lemma_nearest_zero(n: int)
    requires
        0 < n,
    ensures
        nearest(0, n) == 0,
{
    vstd::arithmetic::div_mod::lemma_basic_div(n, 2 * n);
}

} // verus!
