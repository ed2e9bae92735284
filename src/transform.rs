//! Affine transforms as chains of steps: instance placements (scale, then
//! rotate about Z, then translate) and the vertical flip of the output frame.
use vstd::prelude::*;
use crate::geom::{Point3, checked_point, floor_div, in_range, div_floor, COORD_LIMIT};

verus! {

/// The fixed-point denominator of scale factors and rotation components.
pub const UNIT: i64 = 1_000_000;

/// A rotation about the Z axis, given by its cosine and sine in units of
/// `1 / UNIT`.
#[derive(Clone, Copy, Debug, PartialEq, Eq, Structural)]
pub struct Rotation {
    pub cos: i64,
    pub sin: i64,
}

impl Rotation {
    /// The rotation by zero degrees.
    pub fn none() -> (r: Rotation)
        ensures
            r.cos == UNIT,
            r.sin == 0,
    {
        Rotation { cos: UNIT, sin: 0 }
    }
}

/// Where a block instance sits in its parent: per-axis scale factors (in
/// units of `1 / UNIT`), a rotation, and the translation `offset`.
#[derive(Clone, Copy, Debug, PartialEq, Eq, Structural)]
pub struct Placement {
    pub scale_x: i64,
    pub scale_y: i64,
    pub scale_z: i64,
    pub rotation: Rotation,
    pub offset: Point3,
}

/// One step of a transform chain.
#[derive(Clone, Copy, Debug, PartialEq, Eq, Structural)]
pub enum Step {
    /// `offset + Rz · diag(scale) · p`.
    Place(Placement),
    /// `(x, axis - y, z)`: a mirror about the horizontal line `y = axis / 2`.
    FlipY { axis: i64 },
}

/// A ratio in units of `1 / UNIT` applied to an integer, rounded down.
pub open spec fn ratio_of(r: int, v: int) -> int {
    floor_div(r * v, UNIT as int)
}

/// The placement applied to `p`: scale, then rotate, then translate. Each
/// stage must stay in the coordinate range, else there is no result.
pub open spec fn place_apply(pl: Placement, p: Point3) -> Option<Point3> {
    if !p.in_range() {
        None
    } else {
        match checked_point(
            ratio_of(pl.scale_x as int, p.x as int),
            ratio_of(pl.scale_y as int, p.y as int),
            ratio_of(pl.scale_z as int, p.z as int),
        ) {
            None => None,
            Some(s) => match checked_point(
                ratio_of(pl.rotation.cos as int, s.x as int) - ratio_of(pl.rotation.sin as int, s.y as int),
                ratio_of(pl.rotation.sin as int, s.x as int) + ratio_of(pl.rotation.cos as int, s.y as int),
                s.z as int,
            ) {
                None => None,
                Some(q) => checked_point(
                    pl.offset.x + q.x,
                    pl.offset.y + q.y,
                    pl.offset.z + q.z,
                ),
            },
        }
    }
}

pub open spec fn step_apply(s: Step, p: Point3) -> Option<Point3> {
    match s {
        Step::Place(pl) => place_apply(pl, p),
        Step::FlipY { axis } => checked_point(p.x as int, axis - p.y, p.z as int),
    }
}

/// The chain applied to `p`, first step first.
pub open spec fn apply_steps(steps: Seq<Step>, p: Point3) -> Option<Point3>
    decreases steps.len(),
{
    if steps.len() == 0 {
        Some(p)
    } else {
        match step_apply(steps[0], p) {
            Some(q) => apply_steps(steps.skip(1), q),
            None => None,
        }
    }
}

proof fn lemma_ratio_bound(r: int, v: int)
    requires
        i64::MIN <= r <= i64::MAX,
        -COORD_LIMIT <= v <= COORD_LIMIT,
    ensures
        -0x100_0000_0000_0000_0000_0000_0000 <= r * v <= 0x100_0000_0000_0000_0000_0000_0000,
{
    assert(-0x100_0000_0000_0000_0000_0000_0000 <= r * v <= 0x100_0000_0000_0000_0000_0000_0000)
        by (nonlinear_arith)
        requires
            -0x8000_0000_0000_0000 <= r <= 0x8000_0000_0000_0000,
            -0x100_0000_0000 <= v <= 0x100_0000_0000,
    ;
}

fn fits(v: i128) -> (r: bool)
    ensures
        r == in_range(v as int),
{
    -(COORD_LIMIT as i128) <= v && v <= COORD_LIMIT as i128
}

fn ratio(r: i64, v: i64) -> (q: i128)
    requires
        in_range(v as int),
    ensures
        q == ratio_of(r as int, v as int),
        -0x100_0000_0000_0000_0000_0000_0000 <= q <= 0x100_0000_0000_0000_0000_0000_0000,
{
    proof {
        lemma_ratio_bound(r as int, v as int);
    }
    let q = div_floor(r as i128 * v as i128, UNIT as i128);
    proof {
        let n = r * v;
        vstd::arithmetic::div_mod::lemma_fundamental_div_mod(n, UNIT as int);
        assert(-0x100_0000_0000_0000_0000_0000_0000 <= n / (UNIT as int) <= 0x100_0000_0000_0000_0000_0000_0000)
            by (nonlinear_arith)
            requires
                -0x100_0000_0000_0000_0000_0000_0000 <= n <= 0x100_0000_0000_0000_0000_0000_0000,
                n == (UNIT as int) * (n / (UNIT as int)) + n % (UNIT as int),
                0 <= n % (UNIT as int) < UNIT,
                UNIT == 1_000_000,
        ;
    }
    q
}

impl Placement {
    /// Applies the placement to `p`.
    pub fn apply(&self, p: &Point3) -> (r: Option<Point3>)
        ensures
            r == place_apply(*self, *p),
    {
        if !(fits(p.x as i128) && fits(p.y as i128) && fits(p.z as i128)) {
            return None;
        }
        let sx = ratio(self.scale_x, p.x);
        let sy = ratio(self.scale_y, p.y);
        let sz = ratio(self.scale_z, p.z);
        if !(fits(sx) && fits(sy) && fits(sz)) {
            return None;
        }
        let s = Point3 { x: sx as i64, y: sy as i64, z: sz as i64 };
        let rx = ratio(self.rotation.cos, s.x) - ratio(self.rotation.sin, s.y);
        let ry = ratio(self.rotation.sin, s.x) + ratio(self.rotation.cos, s.y);
        if !(fits(rx) && fits(ry)) {
            return None;
        }
        let tx = self.offset.x as i128 + rx;
        let ty = self.offset.y as i128 + ry;
        let tz = self.offset.z as i128 + sz;
        if !(fits(tx) && fits(ty) && fits(tz)) {
            return None;
        }
        Some(Point3 { x: tx as i64, y: ty as i64, z: tz as i64 })
    }
}

impl Step {
    pub fn apply(&self, p: &Point3) -> (r: Option<Point3>)
        ensures
            r == step_apply(*self, *p),
    {
        match self {
            Step::Place(pl) => pl.apply(p),
            Step::FlipY { axis } => {
                let y = *axis as i128 - p.y as i128;
                if fits(p.x as i128) && fits(y) && fits(p.z as i128) {
                    Some(Point3 { x: p.x, y: y as i64, z: p.z })
                } else {
                    None
                }
            },
        }
    }
}

/// A transform: a chain of steps applied in order. Composition puts the
/// chain of the transform applied first before the other.
#[derive(Debug)]
pub struct Transform {
    pub steps: Vec<Step>,
}

impl View for Transform {
    type V = Seq<Step>;

    open spec fn view(&self) -> Seq<Step> {
        self.steps@
    }
}

/// `a` applied first, then `b`.
pub open spec fn compose(a: Seq<Step>, b: Seq<Step>) -> Seq<Step> {
    a + b
}

/// The placement that scales by one, does not rotate, and does not move.
pub open spec fn is_identity_placement(pl: Placement) -> bool {
    &&& pl.scale_x == UNIT
    &&& pl.scale_y == UNIT
    &&& pl.scale_z == UNIT
    &&& pl.rotation.cos == UNIT
    &&& pl.rotation.sin == 0
    &&& pl.offset == Point3 { x: 0, y: 0, z: 0 }
}

impl Transform {
    /// The transform that leaves every point where it is.
    pub fn identity() -> (r: Transform)
        ensures
            r@ == Seq::<Step>::empty(),
    {
        Transform { steps: Vec::new() }
    }

    /// The transform of one block instance.
    pub fn placement(pl: Placement) -> (r: Transform)
        ensures
            r@ == seq![Step::Place(pl)],
    {
        Transform { steps: vec![Step::Place(pl)] }
    }

    /// The mirror `y' = axis - y`.
    pub fn flip_y(axis: i64) -> (r: Transform)
        ensures
            r@ == seq![Step::FlipY { axis }],
    {
        Transform { steps: vec![Step::FlipY { axis }] }
    }

    /// `self` applied first, then `parent`: a point of a child block taken
    /// into the coordinates of its parent's frame.
    pub fn followed_by(&self, parent: &Transform) -> (r: Transform)
        ensures
            r@ == compose(self@, parent@),
    {
        let mut steps: Vec<Step> = Vec::new();
        let mut i: usize = 0;
        while i < self.steps.len()
            invariant
                i <= self.steps.len(),
                steps@ == self@.take(i as int),
            decreases self.steps.len() - i,
        {
            steps.push(self.steps[i]);
            i += 1;
            assert(steps@ =~= self@.take(i as int));
        }
        let mut j: usize = 0;
        while j < parent.steps.len()
            invariant
                i == self.steps.len(),
                j <= parent.steps.len(),
                steps@ == self@ + parent@.take(j as int),
            decreases parent.steps.len() - j,
        {
            steps.push(parent.steps[j]);
            j += 1;
            assert(steps@ =~= self@ + parent@.take(j as int));
        }
        assert(self@.take(i as int) =~= self@);
        assert(parent@.take(j as int) =~= parent@);
        Transform { steps }
    }

    /// Applies the transform to `p`: `None` when a step leaves the
    /// coordinate range.
    pub fn apply(&self, p: &Point3) -> (r: Option<Point3>)
        ensures
            r == apply_steps(self@, *p),
    {
        let mut cur: Point3 = *p;
        let mut i: usize = 0;
        assert(self@.skip(0) =~= self@);
        while i < self.steps.len()
            invariant
                i <= self.steps.len(),
                apply_steps(self@, *p) == apply_steps(self@.skip(i as int), cur),
            decreases self.steps.len() - i,
        {
            assert(self@.skip(i as int).skip(1) =~= self@.skip(i + 1));
            match self.steps[i].apply(&cur) {
                Some(q) => {
                    cur = q;
                },
                None => {
                    return None;
                },
            }
            i += 1;
        }
        assert(self@.skip(i as int).len() == 0);
        Some(cur)
    }
}

/// Applying a composition is applying its first part, then its second.
pub proof fn lemma_apply_compose(a: Seq<Step>, b: Seq<Step>, p: Point3)
    ensures
        apply_steps(compose(a, b), p) == match apply_steps(a, p) {
            Some(q) => apply_steps(b, q),
            None => None,
        },
    decreases a.len(),
{
    if a.len() > 0 {
        assert(compose(a, b)[0] == a[0]);
        assert(compose(a, b).skip(1) =~= compose(a.skip(1), b));
        match step_apply(a[0], p) {
            Some(q) => lemma_apply_compose(a.skip(1), b, q),
            None => {},
        }
    } else {
        assert(compose(a, b) =~= b);
    }
}

/// Composition is associative in effect: `(a then b) then c` and
/// `a then (b then c)` send every point to the same place.
pub proof fn lemma_compose_associative(a: Seq<Step>, b: Seq<Step>, c: Seq<Step>, p: Point3)
    ensures
        apply_steps(compose(compose(a, b), c), p) == apply_steps(compose(a, compose(b, c)), p),
{
    lemma_apply_compose(compose(a, b), c, p);
    lemma_apply_compose(a, b, p);
    lemma_apply_compose(a, compose(b, c), p);
    match apply_steps(a, p) {
        Some(q) => lemma_apply_compose(b, c, q),
        None => {},
    }
}

/// A placement with unit scale, no rotation and no translation leaves every
/// point of the coordinate range where it is.
pub proof fn lemma_identity_placement(pl: Placement, p: Point3)
    requires
        is_identity_placement(pl),
        p.in_range(),
    ensures
        apply_steps(seq![Step::Place(pl)], p) == Some(p),
{
    let u = UNIT as int;
    assert forall|v: int| #[trigger] ratio_of(u, v) == v by {
        vstd::arithmetic::div_mod::lemma_div_multiples_vanish(v, u);
        assert(u * v == v * u) by (nonlinear_arith);
    }
    assert forall|v: int| #[trigger] ratio_of(0, v) == 0 by {
        assert(0 * v == 0);
    }
    assert(checked_point(p.x as int, p.y as int, p.z as int) == Some(p));
    assert(place_apply(pl, p) == Some(p));
    let s = seq![Step::Place(pl)];
    assert(s.skip(1) =~= Seq::<Step>::empty());
    assert(apply_steps(s.skip(1), p) == Some(p));
}

} // verus!
