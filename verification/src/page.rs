//! The page that is drawn on: 480 by 800 pixels, held in two planes of one bit each.
//!
//! A black pixel has its bit set in both planes. The bits of a row stand in 60 bytes,
//! leftmost pixel first.

use vstd::prelude::*;

verus! {

/// Width of the page in pixels.
pub const PAGE_W: i64 = 480;

/// Height of the page in pixels.
pub const PAGE_H: i64 = 800;

/// Bytes of one row of a plane.
pub const BYTES_PER_ROW: usize = 60;

/// Bytes of a plane.
pub const PLANE_BYTES: usize = 48_000;

/// Whether a point lies on the page.
pub open spec fn on_page(p: (int, int)) -> bool {
    0 <= p.0 < PAGE_W && 0 <= p.1 < PAGE_H
}

/// Whether a plane has the bit of a point set.
pub open spec fn plane_bit(plane: Seq<u8>, p: (int, int)) -> bool {
    plane[BYTES_PER_ROW * p.1 + p.0 / 8] & (0x80u8 >> ((p.0 % 8) as u8)) != 0
}

/// The points of the page whose bits a plane has set.
pub open spec fn plane_points(plane: Seq<u8>) -> Set<(int, int)> {
    Set::new(|p: (int, int)| on_page(p) && plane_bit(plane, p))
}

/// What the two planes show: the points that each has set.
#[verifier::ext_equal]
pub struct Picture {
    pub bw: Set<(int, int)>,
    pub red: Set<(int, int)>,
}

/// The points of `s` after those of `region` on the page were made black or white.
pub open spec fn inked(s: Set<(int, int)>, region: Set<(int, int)>, black: bool) -> Set<
    (int, int),
> {
    Set::new(
        |p: (int, int)|
            if on_page(p) && region.contains(p) {
                black
            } else {
                s.contains(p)
            },
    )
}

impl Picture {
    /// The white page.
    pub open spec fn blank() -> Self {
        Picture { bw: Set::empty(), red: Set::empty() }
    }

    /// With the points of `region` made black or white in both planes. Points off the
    /// page are left out.
    #[verifier::opaque]
    pub open spec fn painted(self, region: Set<(int, int)>, black: bool) -> Self {
        Picture { bw: inked(self.bw, region, black), red: inked(self.red, region, black) }
    }
}

/// Painting two regions in one colour is painting both at once.
pub proof fn lemma_painted_union(
    pic: Picture,
    a: Set<(int, int)>,
    b: Set<(int, int)>,
    black: bool,
)
    ensures
        pic.painted(a, black).painted(b, black) == pic.painted(a.union(b), black),
{
    reveal(Picture::painted);
    assert(pic.painted(a, black).painted(b, black) =~= pic.painted(a.union(b), black));
}

/// Painting nothing changes nothing.
pub proof fn lemma_painted_empty(pic: Picture, black: bool)
    ensures
        pic.painted(Set::empty(), black) == pic,
{
    reveal(Picture::painted);
    assert(pic.painted(Set::empty(), black) =~= pic);
}

/// Regions with the same points on the page paint the same.
pub proof fn lemma_painted_same(pic: Picture, a: Set<(int, int)>, b: Set<(int, int)>, black: bool)
    requires
        forall|p: (int, int)| on_page(p) ==> a.contains(p) == b.contains(p),
    ensures
        pic.painted(a, black) == pic.painted(b, black),
{
    reveal(Picture::painted);
    assert(pic.painted(a, black) =~= pic.painted(b, black));
}

/// The two planes of a page.
pub struct Page {
    bw: [u8; PLANE_BYTES],
    red: [u8; PLANE_BYTES],
}

impl View for Page {
    type V = Picture;

    closed spec fn view(&self) -> Picture {
        Picture { bw: plane_points(self.bw@), red: plane_points(self.red@) }
    }
}

/// Setting or clearing one bit leaves the others as they are.
pub proof fn lemma_bits(v: u8, a: u8, b: u8)
    by (bit_vector)
    requires
        a < 8,
        b < 8,
    ensures
        (v | (0x80u8 >> a)) & (0x80u8 >> b) != 0 <==> (a == b || v & (0x80u8 >> b) != 0),
        (v & !(0x80u8 >> a)) & (0x80u8 >> b) != 0 <==> (a != b && v & (0x80u8 >> b) != 0),
        0u8 & (0x80u8 >> b) == 0,
{
}

/// Sets or clears the bit of a point in a plane.
fn put(plane: &mut [u8; PLANE_BYTES], x: usize, y: usize, black: bool)
    requires
        x < PAGE_W,
        y < PAGE_H,
    ensures
        plane_points(final(plane)@) == inked(
            plane_points(old(plane)@),
            set![(x as int, y as int)],
            black,
        ),
{
    let i: usize = y * BYTES_PER_ROW + x / 8;
    let bit: u8 = (x % 8) as u8;
    let mask: u8 = 0x80u8 >> bit;
    let v: u8 = plane[i];
    let w: u8 = if black {
        v | mask
    } else {
        v & !mask
    };
    plane[i] = w;
    proof {
        let s = old(plane)@;
        let t = plane@;
        assert forall|p: (int, int)| on_page(p) implies plane_bit(t, p) == (if p == (
            x as int,
            y as int,
        ) {
            black
        } else {
            plane_bit(s, p)
        }) by {
            let j = BYTES_PER_ROW * p.1 + p.0 / 8;
            let b = (p.0 % 8) as u8;
            if j == i {
                assert(p.1 == y && p.0 / 8 == (x / 8) as int);
                lemma_bits(v, bit, b);
            }
        }
        assert(plane_points(t) =~= inked(plane_points(s), set![(x as int, y as int)], black));
    }
}

impl Page {
    /// A white page.
    pub fn new() -> (p: Self)
        ensures
            p@ == Picture::blank(),
    {
        let p = Page { bw: [0; PLANE_BYTES], red: [0; PLANE_BYTES] };
        assert forall|q: (int, int)| on_page(q) implies !plane_bit(p.bw@, q) && !plane_bit(
            p.red@,
            q,
        ) by {
            lemma_bits(0, 0, (q.0 % 8) as u8);
        }
        assert(p@ =~= Picture::blank());
        p
    }

    /// Makes one point black or white; a point off the page is ignored.
    pub fn set_px(&mut self, px: i64, py: i64, black: bool)
        ensures
            final(self)@ == old(self)@.painted(set![(px as int, py as int)], black),
    {
        proof {
            reveal(Picture::painted);
        }
        let ghost before = self@;
        let ghost dot: Set<(int, int)> = set![(px as int, py as int)];
        if px < 0 || py < 0 || px >= PAGE_W || py >= PAGE_H {
            assert(before =~= before.painted(dot, black));
            return;
        }
        put(&mut self.bw, px as usize, py as usize, black);
        put(&mut self.red, px as usize, py as usize, black);
        assert(self@ =~= before.painted(dot, black));
    }

    /// Makes the whole page white.
    pub fn clear(&mut self)
        ensures
            final(self)@ == Picture::blank(),
    {
        *self = Page::new();
    }

    /// The black-and-white plane.
    pub fn bw(&self) -> (b: &[u8])
        ensures
            b@.len() == PLANE_BYTES,
            plane_points(b@) == self@.bw,
    {
        &self.bw
    }

    /// The red plane.
    pub fn red(&self) -> (b: &[u8])
        ensures
            b@.len() == PLANE_BYTES,
            plane_points(b@) == self@.red,
    {
        &self.red
    }

    /// Whether a point is set in both planes.
    pub fn is_black(&self, px: i64, py: i64) -> (yes: bool)
        ensures
            yes == (self@.bw.contains((px as int, py as int)) && self@.red.contains(
                (px as int, py as int),
            )),
    {
        if px < 0 || py < 0 || px >= PAGE_W || py >= PAGE_H {
            return false;
        }
        let (x, y): (usize, usize) = (px as usize, py as usize);
        let i: usize = y * BYTES_PER_ROW + x / 8;
        let mask: u8 = 0x80u8 >> ((x % 8) as u8);
        self.bw[i] & mask != 0 && self.red[i] & mask != 0
    }

    /// Makes black every point whose bit is set in `bitmap`, a plane of the page's size.
    pub fn stamp(&mut self, bitmap: &[u8])
        requires
            bitmap@.len() == PLANE_BYTES,
        ensures
            final(self)@ == old(self)@.painted(plane_points(bitmap@), true),
    {
        proof {
            reveal(Picture::painted);
        }
        let ghost before = *self;
        let mut i: usize = 0;
        while i < PLANE_BYTES
            invariant
                i <= PLANE_BYTES,
                bitmap@.len() == PLANE_BYTES,
                forall|k: int|
                    0 <= k < PLANE_BYTES ==> self.bw@[k] == (if k < i {
                        before.bw@[k] | bitmap@[k]
                    } else {
                        before.bw@[k]
                    }),
                forall|k: int|
                    0 <= k < PLANE_BYTES ==> self.red@[k] == (if k < i {
                        before.red@[k] | bitmap@[k]
                    } else {
                        before.red@[k]
                    }),
            decreases PLANE_BYTES - i,
        {
            self.bw[i] = self.bw[i] | bitmap[i];
            self.red[i] = self.red[i] | bitmap[i];
            i += 1;
        }
        assert forall|p: (int, int)| on_page(p) implies plane_bit(self.bw@, p) == (plane_bit(
            before.bw@,
            p,
        ) || plane_bit(bitmap@, p)) && plane_bit(self.red@, p) == (plane_bit(before.red@, p)
            || plane_bit(bitmap@, p)) by {
            let k = BYTES_PER_ROW * p.1 + p.0 / 8;
            lemma_or(before.bw@[k], bitmap@[k], (p.0 % 8) as u8);
            lemma_or(before.red@[k], bitmap@[k], (p.0 % 8) as u8);
        }
        assert(self@ =~= before@.painted(plane_points(bitmap@), true));
    }
}

/// Or keeps the bits of both sides.
proof fn lemma_or(v: u8, w: u8, b: u8)
    by (bit_vector)
    requires
        b < 8,
    ensures
        (v | w) & (0x80u8 >> b) != 0 <==> (v & (0x80u8 >> b) != 0 || w & (0x80u8 >> b) != 0),
{
}

/// A plane with one bit set or cleared; a bit past its end is ignored.
pub open spec fn put_bit(plane: Seq<u8>, at: (u16, u16), on: bool) -> Seq<u8> {
    let i = BYTES_PER_ROW * at.1 + at.0 as int / 8;
    let mask = 0x80u8 >> ((at.0 % 8) as u8);
    if i < plane.len() {
        plane.update(
            i,
            if on {
                plane[i] | mask
            } else {
                plane[i] & !mask
            },
        )
    } else {
        plane
    }
}

/// A plane with the first `n` points of row `y` of a page put where `coords` say. A point
/// without coordinates is left out.
pub open spec fn row_put(
    plane: Seq<u8>,
    points: Set<(int, int)>,
    y: int,
    coords: Seq<Option<(u16, u16)>>,
    n: int,
) -> Seq<u8>
    decreases n,
{
    if n <= 0 {
        plane
    } else {
        let before = row_put(plane, points, y, coords, n - 1);
        match coords[n - 1] {
            Some(at) => put_bit(before, at, points.contains((n - 1, y))),
            None => before,
        }
    }
}

/// Sets or clears one bit of a plane.
fn put_at(plane: &mut [u8], at: (u16, u16), on: bool)
    ensures
        final(plane)@ == put_bit(old(plane)@, at, on),
{
    let (x, y): (u16, u16) = at;
    let i: usize = y as usize * BYTES_PER_ROW + x as usize / 8;
    let mask: u8 = 0x80u8 >> ((x % 8) as u8);
    if i < plane.len() {
        let v: u8 = plane[i];
        plane[i] = if on {
            v | mask
        } else {
            v & !mask
        };
    }
}

impl Page {
    /// Puts row `y` of the page into the two planes of a frame buffer, each point where
    /// `coords` say.
    pub fn put_row(
        &self,
        y: usize,
        coords: &[Option<(u16, u16)>],
        bw: &mut [u8],
        red: &mut [u8],
    )
        requires
            y < PAGE_H,
            coords@.len() <= PAGE_W,
        ensures
            final(bw)@ == row_put(
                old(bw)@,
                self@.bw,
                y as int,
                coords@,
                coords@.len() as int,
            ),
            final(red)@ == row_put(
                old(red)@,
                self@.red,
                y as int,
                coords@,
                coords@.len() as int,
            ),
    {
        let mut x: usize = 0;
        while x < coords.len()
            invariant
                y < PAGE_H,
                x <= coords@.len() <= PAGE_W,
                bw@ == row_put(old(bw)@, self@.bw, y as int, coords@, x as int),
                red@ == row_put(old(red)@, self@.red, y as int, coords@, x as int),
            decreases coords@.len() - x,
        {
            let i: usize = y * BYTES_PER_ROW + x / 8;
            let mask: u8 = 0x80u8 >> ((x % 8) as u8);
            if let Some(at) = coords[x] {
                put_at(bw, at, self.bw[i] & mask != 0);
                put_at(red, at, self.red[i] & mask != 0);
            }
            x += 1;
        }
    }
}

/// A frame buffer into which a row was put shows each of its points where it was put, as
/// long as no two points were put at one place.
pub proof fn law_row_is_shown(
    plane: Seq<u8>,
    points: Set<(int, int)>,
    y: int,
    coords: Seq<Option<(u16, u16)>>,
    n: int,
    x: int,
)
    requires
        plane.len() == PLANE_BYTES,
        0 <= x < n <= coords.len(),
        forall|k: int|
            0 <= k < n ==> ((#[trigger] coords[k]) matches Some(at) && on_page(
                (at.0 as int, at.1 as int),
            )),
        forall|j: int, k: int| 0 <= j < k < n ==> coords[j] != coords[k],
    ensures
        ({
            let at = coords[x]->Some_0;
            plane_bit(row_put(plane, points, y, coords, n), (at.0 as int, at.1 as int))
                == points.contains((x, y))
        }),
    decreases n,
{
    let before = row_put(plane, points, y, coords, n - 1);
    lemma_row_len(plane, points, y, coords, n - 1);
    let last = coords[n - 1]->Some_0;
    let at = coords[x]->Some_0;
    assert(coords[n - 1] is Some && coords[x] is Some);
    let i = BYTES_PER_ROW * last.1 + last.0 as int / 8;
    let j = BYTES_PER_ROW * at.1 + at.0 as int / 8;
    if x < n - 1 {
        law_row_is_shown(plane, points, y, coords, n - 1, x);
        assert(coords[x] != coords[n - 1]);
        if i == j {
            assert(last.1 == at.1);
            lemma_bits(before[i], (last.0 % 8) as u8, (at.0 % 8) as u8);
        }
    } else {
        lemma_bits(before[i], (last.0 % 8) as u8, (last.0 % 8) as u8);
    }
}

proof fn lemma_row_len(
    plane: Seq<u8>,
    points: Set<(int, int)>,
    y: int,
    coords: Seq<Option<(u16, u16)>>,
    n: int,
)
    ensures
        row_put(plane, points, y, coords, n).len() == plane.len(),
    decreases n,
{
    if n > 0 {
        lemma_row_len(plane, points, y, coords, n - 1);
    }
}

/// Bit `x % 8` of byte `x / 8` of row `y`, counted from the most significant one, is the
/// point `x` of that row, sixty bytes to the row.
pub proof fn law_points_in_their_bits(plane: Seq<u8>, x: int, y: int)
    requires
        on_page((x, y)),
    ensures
        plane_bit(plane, (x, y)) <==> (plane[60 * y + x / 8] >> ((7 - x % 8) as u8)) % 2 == 1,
        plane_points(plane).contains((x, y)) <==> plane_bit(plane, (x, y)),
        0 <= x < 480 && 0 <= y < 800,
{
    let v = plane[60 * y + x / 8];
    let k = (x % 8) as u8;
    let d = (7 - x % 8) as u8;
    assert((v & (0x80u8 >> k) != 0) == ((v >> d) % 2 == 1)) by (bit_vector)
        requires
            k < 8,
            d == 7 - k,
    ;
}

/// What is painted is black or white as asked on all of its points that lie on the page, in
/// both planes; every other point stays as it is.
pub proof fn law_painting(pic: Picture, region: Set<(int, int)>, black: bool, p: (int, int))
    ensures
        on_page(p) && region.contains(p) ==> pic.painted(region, black).bw.contains(p) == black
            && pic.painted(region, black).red.contains(p) == black,
        !(on_page(p) && region.contains(p)) ==> pic.painted(region, black).bw.contains(p)
            == pic.bw.contains(p) && pic.painted(region, black).red.contains(p)
            == pic.red.contains(p),
{
    reveal(Picture::painted);
}

} // verus!
