//! Fixed-point geometry on the unit sphere.
//!
//! A place on Earth is held as a [`Point`]: its position on the unit sphere,
//! shifted into the non-negative octant and scaled so that one unit of length
//! is [`GRID_UNIT`] grid steps. Squared straight-line ("chord") distances
//! between such points are exact integers, and convert to metres on the
//! Earth's surface scale and back.

use vstd::prelude::*;

verus! {

/// Grid steps per unit length (the radius of the sphere).
pub const GRID_UNIT: u64 = 16_777_216;

/// Largest coordinate of a grid point: the diameter of the sphere.
pub const GRID_SPAN: u64 = 33_554_432;

/// Mean radius of the Earth, in metres.
pub const EARTH_RADIUS_M: u64 = 6_371_000;

/// The distances for which [`metres_to_chord`] fits its result type lie
/// below this bound.
pub const CHORD_METRES_LIMIT: u64 = 1_630_976_000;

/// A point of the grid: the unit-sphere embedding of a coordinate, each axis
/// shifted by one radius and scaled by [`GRID_UNIT`].
#[derive(Clone, Copy, Debug, PartialEq, Eq, Structural)]
pub struct Point {
    pub x: u64,
    pub y: u64,
    pub z: u64,
}

impl Point {
    /// Every coordinate lies within the grid.
    pub open spec fn wf(self) -> bool {
        &&& self.x <= GRID_SPAN
        &&& self.y <= GRID_SPAN
        &&& self.z <= GRID_SPAN
    }

    /// The coordinates as a plain triple.
    pub open spec fn coords(self) -> (u64, u64, u64) {
        (self.x, self.y, self.z)
    }

    /// Builds a grid point, or nothing if a coordinate lies outside the grid.
    pub fn new(x: u64, y: u64, z: u64) -> (p: Option<Point>)
        ensures
            p == (if x <= GRID_SPAN && y <= GRID_SPAN && z <= GRID_SPAN {
                Some(Point { x, y, z })
            } else {
                None
            }),
            p matches Some(q) ==> q.wf(),
    {
        if x <= GRID_SPAN && y <= GRID_SPAN && z <= GRID_SPAN {
            Some(Point { x, y, z })
        } else {
            None
        }
    }

    /// Squared chord distance to `other`, in squared grid steps.
    pub fn squared_chord(&self, other: &Point) -> (d: u64)
        requires
            self.wf(),
            other.wf(),
        ensures
            d == sq_dist(self.coords(), other.coords()),
    {
        let dx: u64 = axis_gap(self.x, other.x);
        let dy: u64 = axis_gap(self.y, other.y);
        let dz: u64 = axis_gap(self.z, other.z);
        proof {
            lemma_square_bound(dx as int, GRID_SPAN as int);
            lemma_square_bound(dy as int, GRID_SPAN as int);
            lemma_square_bound(dz as int, GRID_SPAN as int);
        }
        dx * dx + dy * dy + dz * dz
    }
}

/// Squared Euclidean distance between two coordinate triples.
pub open spec fn sq_dist(a: (u64, u64, u64), b: (u64, u64, u64)) -> int {
    (a.0 - b.0) * (a.0 - b.0) + (a.1 - b.1) * (a.1 - b.1) + (a.2 - b.2) * (a.2 - b.2)
}

/// `m` is the whole number of metres in a chord of squared length `chord`:
/// the floor of `sqrt(chord) * EARTH_RADIUS_M / GRID_UNIT`.
pub open spec fn is_chord_metres(chord: int, m: int) -> bool {
    &&& 0 <= m
    &&& (m * GRID_UNIT) * (m * GRID_UNIT) <= chord * (EARTH_RADIUS_M * EARTH_RADIUS_M)
    &&& chord * (EARTH_RADIUS_M * EARTH_RADIUS_M) < ((m + 1) * GRID_UNIT) * ((m + 1) * GRID_UNIT)
}

/// The distance in whole metres that a squared chord length stands for.
pub open spec fn chord_metres(chord: int) -> int {
    choose|m: int| is_chord_metres(chord, m)
}

/// `chord` is the least squared chord length whose distance reaches `metres`:
/// the ceiling of `(metres * GRID_UNIT / EARTH_RADIUS_M)^2`.
pub open spec fn is_metres_chord(metres: int, chord: int) -> bool {
    &&& 0 <= chord
    &&& (metres * GRID_UNIT) * (metres * GRID_UNIT) <= chord * (EARTH_RADIUS_M * EARTH_RADIUS_M)
    &&& chord == 0 || (chord - 1) * (EARTH_RADIUS_M * EARTH_RADIUS_M) < (metres * GRID_UNIT) * (
    metres * GRID_UNIT)
}

/// The least squared chord length at a distance of at least `metres`.
pub open spec fn metres_chord(metres: int) -> int {
    choose|chord: int| is_metres_chord(metres, chord)
}

proof fn lemma_square_bound(a: int, b: int)
    requires
        0 <= a <= b,
    ensures
        0 <= a * a <= b * b,
{
    assert(0 <= a * a <= b * b) by (nonlinear_arith)
        requires
            0 <= a <= b,
    ;
}

proof fn lemma_square_strict(a: int, b: int)
    requires
        0 <= a < b,
    ensures
        a * a < b * b,
{
    assert(a * a < b * b) by (nonlinear_arith)
        requires
            0 <= a < b,
    ;
}

/// Every length has a whole square root: `r` with `r * r <= n < (r + 1) * (r + 1)`.
proof fn lemma_floor_sqrt_exists(n: int) -> (r: int)
    requires
        0 <= n,
    ensures
        0 <= r,
        r * r <= n < (r + 1) * (r + 1),
    decreases n,
{
    if n == 0 {
        0
    } else {
        let r0 = lemma_floor_sqrt_exists(n - 1);
        if (r0 + 1) * (r0 + 1) <= n {
            lemma_square_strict(r0 + 1, r0 + 2);
            r0 + 1
        } else {
            r0
        }
    }
}

/// The whole metres of a chord follow from the whole square root of
/// `chord * EARTH_RADIUS_M^2` by dividing it by the grid unit.
proof fn lemma_metres_from_root(chord: int, r: int, m: int)
    requires
        0 <= chord,
        0 <= r,
        r * r <= chord * (EARTH_RADIUS_M * EARTH_RADIUS_M) < (r + 1) * (r + 1),
        m == r / (GRID_UNIT as int),
    ensures
        is_chord_metres(chord, m),
{
    let s = GRID_UNIT as int;
    assert(m * s <= r < (m + 1) * s) by (nonlinear_arith)
        requires
            m == r / s,
            s == 16_777_216,
            0 <= r,
    ;
    assert(0 <= m) by (nonlinear_arith)
        requires
            m == r / s,
            s == 16_777_216,
            0 <= r,
    ;
    assert(0 <= m * s) by (nonlinear_arith)
        requires
            0 <= m,
            0 <= s,
    ;
    lemma_square_bound(m * s, r);
    lemma_square_bound(r + 1, (m + 1) * s);
}

/// A squared chord length stands for exactly one whole number of metres.
pub proof fn lemma_chord_metres_unique(chord: int, m1: int, m2: int)
    requires
        is_chord_metres(chord, m1),
        is_chord_metres(chord, m2),
    ensures
        m1 == m2,
{
    let s = GRID_UNIT as int;
    if m1 < m2 {
        assert(0 <= (m1 + 1) * s <= m2 * s) by (nonlinear_arith)
            requires
                0 <= m1,
                m1 + 1 <= m2,
                s == 16_777_216,
        ;
        lemma_square_bound((m1 + 1) * s, m2 * s);
    } else if m2 < m1 {
        assert(0 <= (m2 + 1) * s <= m1 * s) by (nonlinear_arith)
            requires
                0 <= m2,
                m2 + 1 <= m1,
                s == 16_777_216,
        ;
        lemma_square_bound((m2 + 1) * s, m1 * s);
    }
}

/// Every squared chord length has its whole number of metres.
pub proof fn lemma_chord_metres_exists(chord: int)
    requires
        0 <= chord,
    ensures
        is_chord_metres(chord, chord_metres(chord)),
{
    let n = chord * (EARTH_RADIUS_M * EARTH_RADIUS_M);
    assert(0 <= n) by (nonlinear_arith)
        requires
            0 <= chord,
            n == chord * (6_371_000 * 6_371_000),
    ;
    let r = lemma_floor_sqrt_exists(n);
    lemma_metres_from_root(chord, r, r / (GRID_UNIT as int));
}

/// A longer chord never stands for fewer metres.
pub proof fn lemma_chord_metres_monotonic(a: int, b: int)
    requires
        0 <= a <= b,
    ensures
        chord_metres(a) <= chord_metres(b),
{
    lemma_chord_metres_exists(a);
    lemma_chord_metres_exists(b);
    let ma = chord_metres(a);
    let mb = chord_metres(b);
    let s = GRID_UNIT as int;
    if mb < ma {
        assert(0 <= (mb + 1) * s <= ma * s) by (nonlinear_arith)
            requires
                0 <= mb,
                mb + 1 <= ma,
                s == 16_777_216,
        ;
        lemma_square_bound((mb + 1) * s, ma * s);
        assert(a * (6_371_000 * 6_371_000) <= b * (6_371_000 * 6_371_000)) by (nonlinear_arith)
            requires
                a <= b,
        ;
    }
}

/// A squared distance is never negative, and is zero between a point and
/// itself only.
pub proof fn lemma_sq_dist_zero(a: (u64, u64, u64), b: (u64, u64, u64))
    ensures
        0 <= sq_dist(a, b),
        sq_dist(a, b) == 0 <==> a == b,
{
    let dx = a.0 - b.0;
    let dy = a.1 - b.1;
    let dz = a.2 - b.2;
    assert(dx * dx >= 0 && (dx * dx == 0 <==> dx == 0)) by (nonlinear_arith);
    assert(dy * dy >= 0 && (dy * dy == 0 <==> dy == 0)) by (nonlinear_arith);
    assert(dz * dz >= 0 && (dz * dz == 0 <==> dz == 0)) by (nonlinear_arith);
    assert(sq_dist(a, b) == dx * dx + dy * dy + dz * dz);
    if dx == 0 && dy == 0 && dz == 0 {
        assert(a.0 == b.0 && a.1 == b.1 && a.2 == b.2);
        assert(a == b);
    }
}

/// Two coinciding points are no metres apart.
pub proof fn lemma_chord_metres_zero()
    ensures
        chord_metres(0) == 0,
{
    lemma_chord_metres_exists(0);
    assert(is_chord_metres(0, 0)) by (nonlinear_arith);
    lemma_chord_metres_unique(0, 0, chord_metres(0));
}

/// A distance is reached by exactly one least squared chord length.
pub proof fn lemma_metres_chord_unique(metres: int, c1: int, c2: int)
    requires
        is_metres_chord(metres, c1),
        is_metres_chord(metres, c2),
    ensures
        c1 == c2,
{
    let rr = (EARTH_RADIUS_M * EARTH_RADIUS_M) as int;
    if c1 < c2 {
        assert(c1 * rr <= (c2 - 1) * rr) by (nonlinear_arith)
            requires
                c1 <= c2 - 1,
                rr == 6_371_000 * 6_371_000,
        ;
    } else if c2 < c1 {
        assert(c2 * rr <= (c1 - 1) * rr) by (nonlinear_arith)
            requires
                c2 <= c1 - 1,
                rr == 6_371_000 * 6_371_000,
        ;
    }
}

/// The least squared chord length of a distance is the rounded-up quotient of
/// `(metres * GRID_UNIT)^2` by `EARTH_RADIUS_M^2`.
proof fn lemma_chord_from_quotient(metres: int, chord: int)
    requires
        0 <= metres,
        chord == ((metres * GRID_UNIT) * (metres * GRID_UNIT) + (EARTH_RADIUS_M * EARTH_RADIUS_M
            - 1)) / ((EARTH_RADIUS_M * EARTH_RADIUS_M) as int),
    ensures
        is_metres_chord(metres, chord),
{
    let rr = (EARTH_RADIUS_M * EARTH_RADIUS_M) as int;
    let num = (metres * GRID_UNIT) * (metres * GRID_UNIT);
    assert(0 <= num) by (nonlinear_arith)
        requires
            num == (metres * GRID_UNIT) * (metres * GRID_UNIT),
    ;
    assert(chord * rr <= num + rr - 1 < (chord + 1) * rr && 0 <= chord) by (nonlinear_arith)
        requires
            chord == (num + (rr - 1)) / rr,
            rr == 6_371_000 * 6_371_000,
            0 <= num,
    ;
    assert((chord - 1) * rr == chord * rr - rr) by (nonlinear_arith);
    assert((chord + 1) * rr == chord * rr + rr) by (nonlinear_arith);
}

/// Every distance is reached by a least squared chord length.
pub proof fn lemma_metres_chord_exists(metres: int)
    requires
        0 <= metres,
    ensures
        is_metres_chord(metres, metres_chord(metres)),
{
    let rr = (EARTH_RADIUS_M * EARTH_RADIUS_M) as int;
    let num = (metres * GRID_UNIT) * (metres * GRID_UNIT);
    lemma_chord_from_quotient(metres, (num + (rr - 1)) / rr);
}

/// Converting a distance to its least squared chord length and back gives
/// the distance again, exactly.
pub proof fn lemma_metres_round_trip(metres: int)
    requires
        0 <= metres,
    ensures
        chord_metres(metres_chord(metres)) == metres,
{
    lemma_metres_chord_exists(metres);
    let c = metres_chord(metres);
    let s = GRID_UNIT as int;
    let rr = (EARTH_RADIUS_M * EARTH_RADIUS_M) as int;
    let ms = metres * s;
    assert(0 <= ms) by (nonlinear_arith)
        requires
            0 <= metres,
            ms == metres * s,
            0 <= s,
    ;
    assert(((metres + 1) * s) * ((metres + 1) * s) == ms * ms + 2 * ms * s + s * s)
        by (nonlinear_arith)
        requires
            ms == metres * s,
    ;
    assert(0 <= 2 * ms * s) by (nonlinear_arith)
        requires
            0 <= ms,
            0 <= s,
    ;
    if c == 0 {
        assert(ms * ms <= 0) by (nonlinear_arith)
            requires
                ms * ms <= c * rr,
                c == 0,
        ;
        assert(c * rr == 0) by (nonlinear_arith)
            requires
                c == 0,
        ;
    } else {
        assert(c * rr == (c - 1) * rr + rr) by (nonlinear_arith);
    }
    assert(is_chord_metres(c, metres));
    lemma_chord_metres_exists(c);
    lemma_chord_metres_unique(c, metres, chord_metres(c));
}

/// A chord stands for fewer than `metres` metres exactly when it is shorter
/// than the least chord that reaches `metres`.
pub proof fn lemma_within_metres(chord: int, metres: int)
    requires
        0 <= chord,
        0 <= metres,
    ensures
        chord_metres(chord) < metres <==> chord < metres_chord(metres),
{
    lemma_chord_metres_exists(chord);
    lemma_metres_chord_exists(metres);
    let m = chord_metres(chord);
    let c = metres_chord(metres);
    let s = GRID_UNIT as int;
    let rr = (EARTH_RADIUS_M * EARTH_RADIUS_M) as int;
    if m < metres {
        if chord >= c {
            // (metres * s)^2 <= c * rr <= chord * rr < ((m + 1) * s)^2 <= (metres * s)^2
            assert(0 <= (m + 1) * s <= metres * s) by (nonlinear_arith)
                requires
                    0 <= m,
                    m + 1 <= metres,
                    s == 16_777_216,
            ;
            lemma_square_bound((m + 1) * s, metres * s);
            assert(c * rr <= chord * rr) by (nonlinear_arith)
                requires
                    c <= chord,
                    rr == 6_371_000 * 6_371_000,
            ;
        }
    } else {
        if chord < c {
            // chord * rr <= (c - 1) * rr < (metres * s)^2 <= (m * s)^2 <= chord * rr
            assert(0 <= metres * s <= m * s) by (nonlinear_arith)
                requires
                    0 <= metres,
                    metres <= m,
                    s == 16_777_216,
            ;
            lemma_square_bound(metres * s, m * s);
            assert(chord * rr <= (c - 1) * rr) by (nonlinear_arith)
                requires
                    chord <= c - 1,
                    rr == 6_371_000 * 6_371_000,
            ;
        }
    }
}

/// The whole square root of `n`.
fn floor_sqrt(n: u128) -> (r: u128)
    requires
        n < 0x4000_0000_0000_0000_0000_0000_0000,
    ensures
        r * r <= n < (r + 1) * (r + 1),
        r < 0x80_0000_0000_0000,
{
    let mut lo: u128 = 0;
    let mut hi: u128 = 0x80_0000_0000_0000;
    assert(hi * hi == 0x4000_0000_0000_0000_0000_0000_0000) by (nonlinear_arith)
        requires
            hi == 0x80_0000_0000_0000,
    ;
    while hi - lo > 1
        invariant
            lo < hi <= 0x80_0000_0000_0000,
            lo * lo <= n < hi * hi,
        decreases hi - lo,
    {
        let mid: u128 = lo + (hi - lo) / 2;
        assert(mid * mid < 0x4000_0000_0000_0000_0000_0000_0000) by (nonlinear_arith)
            requires
                mid < 0x80_0000_0000_0000,
        ;
        if mid * mid <= n {
            lo = mid;
        } else {
            hi = mid;
        }
    }
    lo
}

/// Converts a squared chord length to whole metres on the Earth's surface
/// scale: the floor of `sqrt(chord) * EARTH_RADIUS_M / GRID_UNIT`.
pub fn chord_to_metres(chord: u64) -> (metres: u64)
    ensures
        is_chord_metres(chord as int, metres as int),
        metres == chord_metres(chord as int),
{
    let rr: u128 = 40_589_641_000_000;
    assert(rr == EARTH_RADIUS_M * EARTH_RADIUS_M);
    assert(chord * rr < 0x4000_0000_0000_0000_0000_0000_0000) by (nonlinear_arith)
        requires
            chord <= 0xffff_ffff_ffff_ffff,
            rr == 40_589_641_000_000,
    ;
    let n: u128 = (chord as u128) * rr;
    let r: u128 = floor_sqrt(n);
    let m: u128 = r / 16_777_216;
    proof {
        lemma_metres_from_root(chord as int, r as int, m as int);
        lemma_chord_metres_exists(chord as int);
        lemma_chord_metres_unique(chord as int, m as int, chord_metres(chord as int));
    }
    m as u64
}

/// Converts a distance in metres to the least squared chord length that
/// reaches it: the ceiling of `(metres * GRID_UNIT / EARTH_RADIUS_M)^2`.
pub fn metres_to_chord(metres: u64) -> (chord: u64)
    requires
        metres < CHORD_METRES_LIMIT,
    ensures
        is_metres_chord(metres as int, chord as int),
        chord == metres_chord(metres as int),
{
    let rr: u128 = 40_589_641_000_000;
    let side: u128 = (metres as u128) * 16_777_216;
    assert(side * side <= 748_746_718_652_590_375_414_607_072_198_656) by (nonlinear_arith)
        requires
            side <= 27_363_236_626_038_784,
    ;
    let num: u128 = side * side;
    let c: u128 = (num + (rr - 1)) / rr;
    assert(c <= 0xffff_ffff_ffff_ffff) by (nonlinear_arith)
        requires
            c == (num + (rr - 1)) / (rr as int),
            rr == 40_589_641_000_000,
            num <= 748_746_718_652_590_375_414_607_072_198_656,
    ;
    proof {
        lemma_chord_from_quotient(metres as int, c as int);
        lemma_metres_chord_exists(metres as int);
        lemma_metres_chord_unique(metres as int, c as int, metres_chord(metres as int));
    }
    c as u64
}

/// The distance between two grid points in whole metres.
pub fn chord_distance_metres(a: &Point, b: &Point) -> (metres: u64)
    requires
        a.wf(),
        b.wf(),
    ensures
        metres == chord_metres(sq_dist(a.coords(), b.coords())),
{
    chord_to_metres(a.squared_chord(b))
}

/// Distance between two coordinates on one axis.
fn axis_gap(a: u64, b: u64) -> (d: u64)
    ensures
        d == (if a >= b { a - b } else { b - a }),
        d * d == (a - b) * (a - b),
{
    let d: u64 = if a >= b { a - b } else { b - a };
    assert(d * d == (a - b) * (a - b)) by (nonlinear_arith)
        requires
            d == a - b || d == b - a,
    ;
    d
}

} // verus!
