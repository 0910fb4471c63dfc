//! Positions and the breadcrumb trail.

use vstd::prelude::*;

verus! {

/// A WGS84 position in integers.
#[derive(Debug, Clone, Copy, PartialEq, Eq, Structural)]
pub struct GeoPoint {
    /// Latitude in degrees times 10^7; north is positive.
    pub lat_e7: i32,
    /// Longitude in degrees times 10^7; east is positive.
    pub lon_e7: i32,
}

/// The position of a latitude and a longitude.
pub open spec fn point_of(lat_e7: i32, lon_e7: i32) -> GeoPoint {
    GeoPoint { lat_e7, lon_e7 }
}

impl GeoPoint {
    /// A position from coordinates in degrees times 10^7.
    pub fn from_e7(lat_e7: i32, lon_e7: i32) -> (p: Self)
        ensures
            p == (GeoPoint { lat_e7, lon_e7 }),
            p == point_of(lat_e7, lon_e7),
    {
        Self { lat_e7, lon_e7 }
    }

    /// A position from the integer coordinates of a Meshtastic position, which are also
    /// in degrees times 10^7.
    pub fn from_meshtastic_i(latitude_i: i32, longitude_i: i32) -> (p: Self)
        ensures
            p == (GeoPoint { lat_e7: latitude_i, lon_e7: longitude_i }),
            p == point_of(latitude_i, longitude_i),
    {
        Self::from_e7(latitude_i, longitude_i)
    }
}

/// A breadcrumb trail of at most `N` positions. When it is full, a new position takes
/// the place of the oldest one.
#[derive(Debug)]
pub struct Trail<const N: usize> {
    buf: [GeoPoint; N],
    /// Where the next position is written.
    head: usize,
    /// How many positions are held.
    len: usize,
}

impl<const N: usize> Trail<N> {
    #[verifier::type_invariant]
    spec fn well_formed(self) -> bool {
        &&& self.len <= N
        &&& self.head < N || N == 0 && self.head == 0
    }

    /// Where the `i`-th oldest position stands in the ring.
    spec fn slot(self, i: int) -> int {
        (self.head + N - self.len + i) % (N as int)
    }
}

impl<const N: usize> View for Trail<N> {
    type V = Seq<GeoPoint>;

    /// The positions held, oldest first.
    closed spec fn view(&self) -> Seq<GeoPoint> {
        Seq::new(self.len as nat, |i: int| self.buf@[self.slot(i)])
    }
}

/// What remains of a trail when a position is added to it: the newest `cap` positions.
pub open spec fn newest_of(trail: Seq<GeoPoint>, cap: int) -> Seq<GeoPoint> {
    if trail.len() <= cap {
        trail
    } else {
        trail.skip(trail.len() - cap)
    }
}

impl<const N: usize> Trail<N> {
    /// An empty trail.
    pub fn new() -> (t: Self)
        ensures
            t@ == Seq::<GeoPoint>::empty(),
    {
        let t = Self { buf: [GeoPoint { lat_e7: 0, lon_e7: 0 }; N], head: 0, len: 0 };
        assert(t@ =~= Seq::<GeoPoint>::empty());
        t
    }

    /// Adds a position; the oldest one leaves when the trail is full.
    pub fn push(&mut self, p: GeoPoint)
        requires
            N > 0,
        ensures
            final(self)@ == newest_of(old(self)@.push(p), N as int),
    {
        proof {
            use_type_invariant(&*self);
        }
        let ghost before = *self;
        let next: usize = if self.head + 1 < N {
            self.head + 1
        } else {
            0
        };
        self.buf[self.head] = p;
        self.head = next;
        if self.len < N {
            self.len += 1;
        }
        proof {
            lemma_pushed(before, *self, p);
        }
    }
}

proof fn lemma_pushed<const N: usize>(before: Trail<N>, after: Trail<N>, p: GeoPoint)
    requires
        N > 0,
        before.well_formed(),
        after.buf@ == before.buf@.update(before.head as int, p),
        after.head == if before.head + 1 < N { before.head + 1 } else { 0 },
        after.len == if before.len < N { before.len + 1 } else { before.len as int },
    ensures
        after@ == newest_of(before@.push(p), N as int),
{
    let n = N as int;
    let want = newest_of(before@.push(p), n);
    assert(after@.len() == want.len());
    assert forall|i: int| 0 <= i < after@.len() implies after@[i] == want[i] by {
        let a = after.head + n - after.len + i;
        let k = if before.len < N { i } else { i + 1 };
        let b = before.head + n - before.len + k;
        lemma_ring(a, n);
        lemma_ring(b, n);
        if k < before.len {
            assert(want[i] == before@[k]);
        } else {
            assert(want[i] == p);
        }
    }
    assert(after@ =~= want);
}

proof fn lemma_ring(a: int, n: int)
    requires
        n > 0,
        0 <= a < 3 * n,
    ensures
        a % n == (if a < n { a } else if a < 2 * n { a - n } else { a - 2 * n }),
{
    vstd::arithmetic::div_mod::lemma_fundamental_div_mod_converse(
        a,
        n,
        if a < n { 0 } else if a < 2 * n { 1 } else { 2 },
        if a < n { a } else if a < 2 * n { a - n } else { a - 2 * n },
    );
}

impl<const N: usize> Default for Trail<N> {
    fn default() -> (t: Self)
        ensures
            t@ == Seq::<GeoPoint>::empty(),
    {
        Self::new()
    }
}

/// The legs of a trail: each position with the one after it.
pub open spec fn legs_of(trail: Seq<GeoPoint>) -> Seq<(GeoPoint, GeoPoint)> {
    if trail.len() == 0 {
        Seq::empty()
    } else {
        Seq::new((trail.len() - 1) as nat, |i: int| (trail[i], trail[i + 1]))
    }
}

/// The `i`-th position of a trail, counted from the oldest.
pub open spec fn position_at(trail: Seq<GeoPoint>, i: int) -> Option<GeoPoint> {
    if 0 <= i < trail.len() {
        Some(trail[i])
    } else {
        None
    }
}

/// The oldest position of a trail.
pub open spec fn oldest_of(trail: Seq<GeoPoint>) -> Option<GeoPoint> {
    if trail.len() == 0 {
        None
    } else {
        Some(trail.first())
    }
}

/// The newest position of a trail.
pub open spec fn newest_position(trail: Seq<GeoPoint>) -> Option<GeoPoint> {
    if trail.len() == 0 {
        None
    } else {
        Some(trail.last())
    }
}

/// The leg from the newest position of a trail to the start.
pub open spec fn leg_home(trail: Seq<GeoPoint>, home: GeoPoint) -> Option<(GeoPoint, GeoPoint)> {
    if trail.len() == 0 {
        None
    } else {
        Some((trail.last(), home))
    }
}

impl<const N: usize> Trail<N> {
    /// How many positions are held.
    pub fn len(&self) -> (n: usize)
        ensures
            n == self@.len(),
            n <= N,
    {
        proof {
            use_type_invariant(self);
        }
        self.len
    }

    /// Whether no position is held.
    pub fn is_empty(&self) -> (yes: bool)
        ensures
            yes == (self@.len() == 0),
    {
        self.len == 0
    }

    /// The `i`-th position, counted from the oldest.
    pub fn get(&self, i: usize) -> (p: Option<GeoPoint>)
        ensures
            p == (if i < self@.len() {
                Some(self@[i as int])
            } else {
                None
            }),
            p == position_at(self@, i as int),
    {
        proof {
            use_type_invariant(self);
        }
        if i >= self.len {
            return None;
        }
        let back: usize = self.len - i;
        let at: usize = if self.head >= back {
            self.head - back
        } else {
            N - (back - self.head)
        };
        proof {
            lemma_ring(self.head + N - self.len + i, N as int);
        }
        Some(self.buf[at])
    }

    /// The oldest position.
    pub fn oldest(&self) -> (p: Option<GeoPoint>)
        ensures
            p == (if self@.len() == 0 {
                None
            } else {
                Some(self@.first())
            }),
            p == oldest_of(self@),
    {
        self.get(0)
    }

    /// The newest position.
    pub fn newest(&self) -> (p: Option<GeoPoint>)
        ensures
            p == (if self@.len() == 0 {
                None
            } else {
                Some(self@.last())
            }),
            p == newest_position(self@),
    {
        if self.len == 0 {
            return None;
        }
        self.get(self.len - 1)
    }

    /// The positions, oldest first.
    pub fn iter(&self) -> (v: Vec<GeoPoint>)
        ensures
            v@ == self@,
    {
        let mut v: Vec<GeoPoint> = Vec::new();
        let mut i: usize = 0;
        while i < self.len
            invariant
                i <= self@.len(),
                self@.len() == self.len,
                v@ == self@.take(i as int),
            decreases self.len - i,
        {
            if let Some(p) = self.get(i) {
                v.push(p);
            }
            assert(self@.take(i + 1) =~= self@.take(i as int).push(self@[i as int]));
            i += 1;
        }
        assert(self@.take(i as int) =~= self@);
        v
    }

    /// The legs of the trail, oldest first; the way along the trail is the sum of their
    /// lengths.
    pub fn legs(&self) -> (v: Vec<(GeoPoint, GeoPoint)>)
        ensures
            v@ == legs_of(self@),
    {
        let mut v: Vec<(GeoPoint, GeoPoint)> = Vec::new();
        let mut i: usize = 1;
        while i < self.len
            invariant
                1 <= i,
                self@.len() == self.len,
                self@.len() > 0 ==> i <= self@.len(),
                self@.len() > 0 ==> v@ == legs_of(self@).take(i - 1),
                self@.len() == 0 ==> v@.len() == 0,
            decreases self.len - i,
        {
            if let (Some(p), Some(q)) = (self.get(i - 1), self.get(i)) {
                v.push((p, q));
            }
            assert(legs_of(self@).take(i as int) =~= legs_of(self@).take(i - 1).push(
                (self@[i - 1], self@[i as int]),
            ));
            i += 1;
        }
        assert(v@ =~= legs_of(self@));
        v
    }

    /// The leg home: from the newest position to `home`.
    pub fn homing_leg(&self, home: GeoPoint) -> (leg: Option<(GeoPoint, GeoPoint)>)
        ensures
            leg == (if self@.len() == 0 {
                None
            } else {
                Some((self@.last(), home))
            }),
            leg == leg_home(self@, home),
    {
        match self.newest() {
            None => None,
            Some(p) => Some((p, home)),
        }
    }
}

/// The positions of a trail after a number of pushes.
pub open spec fn pushed_all(trail: Seq<GeoPoint>, ps: Seq<GeoPoint>, cap: int) -> Seq<GeoPoint>
    decreases ps.len(),
{
    if ps.len() == 0 {
        trail
    } else {
        newest_of(pushed_all(trail, ps.drop_last(), cap).push(ps.last()), cap)
    }
}

/// However many positions are pushed one by one, the trail holds the newest of them all,
/// in the order in which they came.
pub proof fn law_trail_keeps_the_newest(trail: Seq<GeoPoint>, ps: Seq<GeoPoint>, cap: int)
    requires
        0 < cap,
        trail.len() <= cap,
    ensures
        pushed_all(trail, ps, cap) == newest_of(trail + ps, cap),
        pushed_all(trail, ps, cap).len() <= cap,
    decreases ps.len(),
{
    if ps.len() == 0 {
        assert(trail + ps =~= trail);
    } else {
        law_trail_keeps_the_newest(trail, ps.drop_last(), cap);
        assert(newest_of(trail + ps.drop_last(), cap).push(ps.last()).len() <= cap + 1);
        assert(pushed_all(trail, ps, cap) =~= newest_of(trail + ps, cap));
    }
}

/// A trail that has to fit keeps as many positions as there is room for, the newest ones,
/// each in its order from the end.
pub proof fn law_newest_stay(trail: Seq<GeoPoint>, cap: int, k: int)
    requires
        0 <= cap,
    ensures
        newest_of(trail, cap).len() <= cap,
        newest_of(trail, cap).len() == trail.len() || newest_of(trail, cap).len() == cap,
        newest_of(trail, cap).len() <= trail.len(),
        1 <= k <= newest_of(trail, cap).len() ==> newest_of(trail, cap)[newest_of(trail, cap).len()
            - k] == trail[trail.len() - k],
{
}

/// Each leg leads from a position to the next newer one, and there is one for each two
/// positions in a row.
pub proof fn law_legs_lead_on(trail: Seq<GeoPoint>, i: int)
    ensures
        trail.len() > 0 ==> legs_of(trail).len() == trail.len() - 1,
        trail.len() == 0 ==> legs_of(trail).len() == 0,
        0 <= i < trail.len() - 1 ==> legs_of(trail)[i].0 == trail[i] && legs_of(trail)[i].1
            == trail[i + 1],
{
}

/// A latitude and a longitude are kept each under its own name.
pub proof fn law_point_keeps_its_coordinates(lat_e7: i32, lon_e7: i32)
    ensures
        point_of(lat_e7, lon_e7).lat_e7 == lat_e7,
        point_of(lat_e7, lon_e7).lon_e7 == lon_e7,
{
}

/// Once a position was added to a trail it is the newest one, and the one that was the
/// newest is the one before it; the oldest one is the first. A trail has a position at each
/// place up to its length and nowhere else. The leg home starts at the newest position and
/// ends at the start.
pub proof fn law_first_and_last(trail: Seq<GeoPoint>, p: GeoPoint, i: int, home: GeoPoint)
    ensures
        newest_position(trail.push(p)) == Some(p),
        leg_home(trail.push(p), home) matches Some(leg) && leg.0 == p && leg.1 == home,
        position_at(trail.push(p), trail.len() as int) == Some(p),
        0 <= i < trail.len() ==> position_at(trail.push(p), i) == position_at(trail, i)
            && position_at(trail, i) is Some,
        i < 0 || i >= trail.len() ==> position_at(trail, i) is None,
        newest_position(trail) == position_at(trail, trail.len() - 1),
        oldest_of(trail) == position_at(trail, 0),
        trail.len() > 0 ==> oldest_of(trail.push(p)) == oldest_of(trail),
        oldest_of(Seq::<GeoPoint>::empty().push(p)) == Some(p),
        trail.len() == 0 <==> leg_home(trail, home) is None,
{
}

} // verus!
