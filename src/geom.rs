//! Planar positions, lines given by a point and a direction, and their
//! intersection.
use vstd::prelude::*;
use vstd::arithmetic::div_mod::lemma_fundamental_div_mod_converse;

verus! {

/// Largest magnitude of a coordinate that the library computes with.
pub const COORD_LIMIT: i64 = 1_099_511_627_776;

/// A value fits in the library's coordinate range.
pub open spec fn in_range(v: int) -> bool {
    -COORD_LIMIT <= v <= COORD_LIMIT
}

/// The floor of the rational number `n / d`.
pub open spec fn floor_div(n: int, d: int) -> int {
    if d < 0 {
        (-n) / (-d)
    } else {
        n / d
    }
}

/// The z component of the cross product of two planar vectors.
pub open spec fn cross(ax: int, ay: int, bx: int, by: int) -> int {
    ax * by - ay * bx
}

/// A point in drawing space.
#[derive(Clone, Copy, Debug, PartialEq, Eq, Structural)]
pub struct Point3 {
    pub x: i64,
    pub y: i64,
    pub z: i64,
}

impl Point3 {
    pub open spec fn in_range(&self) -> bool {
        in_range(self.x as int) && in_range(self.y as int) && in_range(self.z as int)
    }

    pub fn in_range_exec(&self) -> (r: bool)
        ensures
            r == self.in_range(),
    {
        let k = COORD_LIMIT;
        -k <= self.x && self.x <= k && -k <= self.y && self.y <= k && -k <= self.z && self.z <= k
    }

    /// The projection onto the XY plane.
    pub fn xy(&self) -> (r: Pos)
        ensures
            r == (Pos { x: self.x, y: self.y }),
    {
        Pos { x: self.x, y: self.y }
    }
}

/// Three integers as a point, where all of them fit the coordinate range.
pub open spec fn checked_point(x: int, y: int, z: int) -> Option<Point3> {
    if in_range(x) && in_range(y) && in_range(z) {
        Some(Point3 { x: x as i64, y: y as i64, z: z as i64 })
    } else {
        None
    }
}

/// A planar position (or a planar vector).
#[derive(Clone, Copy, Debug, PartialEq, Eq, Structural)]
pub struct Pos {
    pub x: i64,
    pub y: i64,
}

/// The line through `point` with direction `dir`.
#[derive(Clone, Copy, Debug, PartialEq, Eq, Structural)]
pub struct Line {
    pub point: Pos,
    pub dir: Pos,
}

impl Line {
    /// The point lies in the coordinate range and the direction is the
    /// difference of two such points at most.
    pub open spec fn wf(&self) -> bool {
        &&& in_range(self.point.x as int)
        &&& in_range(self.point.y as int)
        &&& -2 * COORD_LIMIT <= self.dir.x <= 2 * COORD_LIMIT
        &&& -2 * COORD_LIMIT <= self.dir.y <= 2 * COORD_LIMIT
    }

    /// Determinant of the two directions: zero exactly when they are parallel
    /// (or one of them is zero).
    pub open spec fn det(&self, other: Line) -> int {
        cross(self.dir.x as int, self.dir.y as int, other.dir.x as int, other.dir.y as int)
    }

    /// `det` times the parameter of the common point along `self`.
    pub open spec fn meet_num(&self, other: Line) -> int {
        cross(
            other.point.x - self.point.x,
            other.point.y - self.point.y,
            other.dir.x as int,
            other.dir.y as int,
        )
    }

    /// The common point of two non-parallel lines, `self.point + s * self.dir`
    /// with `s = cross(other.point - self.point, other.dir) / det`, each
    /// coordinate rounded down.
    pub open spec fn meet(&self, other: Line) -> Option<(int, int)> {
        let det = self.det(other);
        if det == 0 {
            None
        } else {
            let num = self.meet_num(other);
            Some(
                (
                    self.point.x + floor_div(num * self.dir.x, det),
                    self.point.y + floor_div(num * self.dir.y, det),
                ),
            )
        }
    }
}

impl Line {
    /// Whether the two directions are parallel.
    pub fn det_is_zero(&self, other: &Line) -> (r: bool)
        requires
            self.wf(),
            other.wf(),
        ensures
            r == (self.det(*other) == 0),
    {
        let k: i128 = 2 * COORD_LIMIT as i128;
        proof {
            lemma_mul_bound(self.dir.x as int, other.dir.y as int, k as int, k as int);
            lemma_mul_bound(self.dir.y as int, other.dir.x as int, k as int, k as int);
        }
        self.dir.x as i128 * other.dir.y as i128 - self.dir.y as i128 * other.dir.x as i128 == 0
    }
}

/// A pair of integers as a position, where both fit the coordinate range.
pub open spec fn representable(o: Option<(int, int)>) -> Option<Pos> {
    match o {
        Some((x, y)) => if in_range(x) && in_range(y) {
            Some(Pos { x: x as i64, y: y as i64 })
        } else {
            None
        },
        None => None,
    }
}

/// Floor division on `i128`.
pub fn div_floor(n: i128, d: i128) -> (q: i128)
    requires
        d != 0,
        n > i128::MIN,
        d > i128::MIN,
    ensures
        q == floor_div(n as int, d as int),
{
    let (n, d): (i128, i128) = if d < 0 { (-n, -d) } else { (n, d) };
    if n >= 0 {
        n / d
    } else {
        let m: i128 = -n;
        let q: i128 = m / d;
        let r: i128 = m % d;
        proof {
            vstd::arithmetic::div_mod::lemma_fundamental_div_mod(m as int, d as int);
        }
        if r == 0 {
            proof {
                assert(n == (-q) * d + 0) by (nonlinear_arith)
                    requires
                        m == d * q + r,
                        r == 0,
                        n == -m,
                ;
                lemma_fundamental_div_mod_converse(n as int, d as int, -q, 0);
            }
            -q
        } else {
            proof {
                assert(n == (-q - 1) * d + (d - r)) by (nonlinear_arith)
                    requires
                        m == d * q + r,
                        n == -m,
                ;
                lemma_fundamental_div_mod_converse(n as int, d as int, -q - 1, d - r);
            }
            -q - 1
        }
    }
}

proof fn lemma_mul_bound(a: int, b: int, ka: int, kb: int)
    requires
        -ka <= a <= ka,
        -kb <= b <= kb,
    ensures
        -(ka * kb) <= a * b <= ka * kb,
{
    assert(-(ka * kb) <= a * b <= ka * kb) by (nonlinear_arith)
        requires
            -ka <= a <= ka,
            -kb <= b <= kb,
    ;
}

proof fn lemma_floor_div_bound(n: int, d: int, b: int)
    requires
        d != 0,
        -b <= n <= b,
    ensures
        -b <= floor_div(n, d) <= b,
{
    let (m, e) = if d < 0 { (-n, -d) } else { (n, d) };
    vstd::arithmetic::div_mod::lemma_fundamental_div_mod(m, e);
    let q = m / e;
    let r = m % e;
    assert(-b <= q <= b) by (nonlinear_arith)
        requires
            e > 0,
            -b <= m <= b,
            m == e * q + r,
            0 <= r < e,
    ;
}

impl Line {
    /// The point where the two lines cross: `None` when they are parallel,
    /// or when that point lies outside the coordinate range.
    pub fn intersection(&self, other: &Line) -> (r: Option<Pos>)
        requires
            self.wf(),
            other.wf(),
        ensures
            r == representable(self.meet(*other)),
    {
        let k: i128 = 2 * COORD_LIMIT as i128;
        let adx = self.dir.x as i128;
        let ady = self.dir.y as i128;
        let bdx = other.dir.x as i128;
        let bdy = other.dir.y as i128;
        proof {
            lemma_mul_bound(adx as int, bdy as int, k as int, k as int);
            lemma_mul_bound(ady as int, bdx as int, k as int, k as int);
        }
        let det: i128 = adx * bdy - ady * bdx;
        if det == 0 {
            return None;
        }
        let wx: i128 = other.point.x as i128 - self.point.x as i128;
        let wy: i128 = other.point.y as i128 - self.point.y as i128;
        proof {
            lemma_mul_bound(wx as int, bdy as int, k as int, k as int);
            lemma_mul_bound(wy as int, bdx as int, k as int, k as int);
        }
        let num: i128 = wx * bdy - wy * bdx;
        proof {
            lemma_mul_bound(num as int, adx as int, 2 * k * k, k as int);
            lemma_mul_bound(num as int, ady as int, 2 * k * k, k as int);
            assert(k * k == 0x4_0000_0000_0000_0000_0000int);
            assert(2 * k * k * k == 0x1000_0000_0000_0000_0000_0000_0000_0000int);
        }
        let qx = div_floor(num * adx, det);
        let qy = div_floor(num * ady, det);
        proof {
            lemma_floor_div_bound(num * adx, det as int, 2 * k * k * k);
            lemma_floor_div_bound(num * ady, det as int, 2 * k * k * k);
        }
        let x: i128 = self.point.x as i128 + qx;
        let y: i128 = self.point.y as i128 + qy;
        if -(COORD_LIMIT as i128) <= x && x <= COORD_LIMIT as i128 && -(COORD_LIMIT as i128) <= y
            && y <= COORD_LIMIT as i128 {
            Some(Pos { x: x as i64, y: y as i64 })
        } else {
            None
        }
    }
}

/// Lines with parallel directions have no common point.
pub proof fn lemma_parallel_lines(a: Line, b: Line)
    requires
        a.dir.x * b.dir.y == a.dir.y * b.dir.x,
    ensures
        a.meet(b) is None,
{
}

/// Where two non-parallel lines meet at an integer point, `meet` is that
/// point exactly, and it lies on both lines.
pub proof fn lemma_meet_exact(a: Line, b: Line, x: int, y: int)
    requires
        a.det(b) != 0,
        a.det(b) * (x - a.point.x) == a.meet_num(b) * a.dir.x,
        a.det(b) * (y - a.point.y) == a.meet_num(b) * a.dir.y,
    ensures
        a.meet(b) == Some((x, y)),
        cross(x - a.point.x, y - a.point.y, a.dir.x as int, a.dir.y as int) == 0,
        cross(x - b.point.x, y - b.point.y, b.dir.x as int, b.dir.y as int) == 0,
{
    let det = a.det(b);
    let num = a.meet_num(b);
    lemma_floor_div_multiple(x - a.point.x, det);
    lemma_floor_div_multiple(y - a.point.y, det);
    let (adx, ady, bdx, bdy) = (a.dir.x as int, a.dir.y as int, b.dir.x as int, b.dir.y as int);
    let (u, v) = (x - a.point.x, y - a.point.y);
    let (wx, wy) = (b.point.x - a.point.x, b.point.y - a.point.y);
    assert(u * ady - v * adx == 0) by (nonlinear_arith)
        requires
            det != 0,
            det * u == num * adx,
            det * v == num * ady,
    ;
    let e1 = u * bdy - v * bdx;
    let c = (u - wx) * bdy - (v - wy) * bdx;
    assert(det * e1 == (det * u) * bdy - (det * v) * bdx) by (nonlinear_arith)
        requires
            e1 == u * bdy - v * bdx,
    ;
    assert(det == adx * bdy - ady * bdx);
    assert((num * adx) * bdy - (num * ady) * bdx == num * (adx * bdy - ady * bdx)) by (nonlinear_arith);
    assert(c == e1 - num) by (nonlinear_arith)
        requires
            num == wx * bdy - wy * bdx,
            e1 == u * bdy - v * bdx,
            c == (u - wx) * bdy - (v - wy) * bdx,
    ;
    assert(det * c == det * e1 - det * num) by (nonlinear_arith)
        requires
            c == e1 - num,
    ;
    assert(c == 0) by (nonlinear_arith)
        requires
            det != 0,
            det * c == 0,
    ;
    assert(x - b.point.x == u - wx);
    assert(y - b.point.y == v - wy);
}

proof fn lemma_floor_div_multiple(k: int, d: int)
    requires
        d != 0,
    ensures
        floor_div(d * k, d) == k,
{
    if d < 0 {
        assert(-(d * k) == (-d) * k) by (nonlinear_arith);
        vstd::arithmetic::div_mod::lemma_div_multiples_vanish(k, -d);
    } else {
        vstd::arithmetic::div_mod::lemma_div_multiples_vanish(k, d);
    }
}

} // verus!
