//! The drawing flattener: a depth-first walk over entities that resolves
//! block instances, composes their transforms, builds dimension witness
//! lines, and emits line primitives in output space.
use vstd::prelude::*;
use crate::geom::{Line, Point3, Pos, representable, COORD_LIMIT};
use crate::transform::{Step, Transform, apply_steps};
use crate::drawing::{Block, Drawing, Entity, Insert, RotatedDimension, block_index, lemma_block_index};

verus! {

/// A stroke color tag. Primitives without one are model geometry, drawn in
/// the renderer's default color; dimension annotations are tagged blue.
#[derive(Clone, Copy, Debug, PartialEq, Eq, Structural)]
pub enum Color {
    Blue,
}

/// A connected polyline to be stroked, in output coordinates.
#[derive(Debug)]
pub struct LinePrimitive {
    pub points: Vec<Pos>,
    pub color: Option<Color>,
}

pub struct PrimitiveView {
    pub points: Seq<Pos>,
    pub color: Option<Color>,
}

impl View for LinePrimitive {
    type V = PrimitiveView;

    open spec fn view(&self) -> PrimitiveView {
        PrimitiveView { points: self.points@, color: self.color }
    }
}

/// A recoverable event met while flattening: the entity concerned
/// contributes no primitive, and the walk goes on.
#[derive(Debug)]
pub enum Diagnostic {
    /// An insert names a block that the drawing does not define.
    MissingBlock { name: String },
    /// An entity of a kind that the flattener does not draw.
    UnsupportedEntity { kind: String },
    /// A dimension whose two construction lines are parallel.
    DegenerateDimension,
    /// A computed coordinate falls outside the coordinate range.
    OutOfRange,
}

pub enum DiagnosticView {
    MissingBlock(Seq<char>),
    UnsupportedEntity(Seq<char>),
    DegenerateDimension,
    OutOfRange,
}

impl View for Diagnostic {
    type V = DiagnosticView;

    open spec fn view(&self) -> DiagnosticView {
        match self {
            Diagnostic::MissingBlock { name } => DiagnosticView::MissingBlock(name@),
            Diagnostic::UnsupportedEntity { kind } => DiagnosticView::UnsupportedEntity(kind@),
            Diagnostic::DegenerateDimension => DiagnosticView::DegenerateDimension,
            Diagnostic::OutOfRange => DiagnosticView::OutOfRange,
        }
    }
}

pub open spec fn prim_views(v: Seq<LinePrimitive>) -> Seq<PrimitiveView> {
    v.map_values(|p: LinePrimitive| p@)
}

pub open spec fn diag_views(v: Seq<Diagnostic>) -> Seq<DiagnosticView> {
    v.map_values(|d: Diagnostic| d@)
}

/// The XY projection of each point under `t`, in order; `None` when one of
/// them leaves the coordinate range.
pub open spec fn map_points(t: Seq<Step>, vs: Seq<Point3>) -> Option<Seq<Pos>>
    decreases vs.len(),
{
    if vs.len() == 0 {
        Some(Seq::empty())
    } else {
        match (map_points(t, vs.drop_last()), apply_steps(t, vs.last())) {
            (Some(ps), Some(q)) => Some(ps.push(Pos { x: q.x, y: q.y })),
            _ => None,
        }
    }
}

/// What a chain of points contributes: one primitive when it has at least
/// two points, nothing otherwise.
pub open spec fn strip_output(ps: Seq<Pos>, color: Option<Color>) -> (
    Seq<PrimitiveView>,
    Seq<DiagnosticView>,
) {
    if ps.len() >= 2 {
        (seq![PrimitiveView { points: ps, color }], Seq::empty())
    } else {
        (Seq::empty(), Seq::empty())
    }
}

/// What the points `vs` contribute under `t`.
pub open spec fn points_output(t: Seq<Step>, vs: Seq<Point3>, color: Option<Color>) -> (
    Seq<PrimitiveView>,
    Seq<DiagnosticView>,
) {
    match map_points(t, vs) {
        Some(ps) => strip_output(ps, color),
        None => (Seq::empty(), seq![DiagnosticView::OutOfRange]),
    }
}

/// A direction component that a construction line accepts.
pub open spec fn dir_in_range(v: int) -> bool {
    -2 * COORD_LIMIT <= v <= 2 * COORD_LIMIT
}

/// The line through the first definition point along the dimension's
/// direction.
pub open spec fn measure_line(dim: RotatedDimension) -> Line {
    Line {
        point: Pos { x: dim.definition_point_1.x, y: dim.definition_point_1.y },
        dir: Pos { x: dim.rotation_angle.cos, y: dim.rotation_angle.sin },
    }
}

/// The line through the second definition point parallel to the vector from
/// the third definition point to the first. Directions are not normalized:
/// the common point of two lines does not depend on their lengths.
pub open spec fn witness_line(dim: RotatedDimension) -> Line {
    let p1 = dim.definition_point_1;
    let p3 = dim.definition_point_3;
    Line {
        point: Pos { x: dim.definition_point_2.x, y: dim.definition_point_2.y },
        dir: Pos { x: (p1.x - p3.x) as i64, y: (p1.y - p3.y) as i64 },
    }
}

/// The witness-line polyline of a dimension before any transform:
/// `p2, p4, p1, p3`, where `p4` (at height zero) is the intersection of the
/// measure line and the witness line.
pub open spec fn dimension_points(dim: RotatedDimension) -> Result<Seq<Point3>, DiagnosticView> {
    let p1 = dim.definition_point_1;
    let p2 = dim.definition_point_2;
    let p3 = dim.definition_point_3;
    if !(p1.in_range() && p2.in_range() && p3.in_range() && dir_in_range(
        dim.rotation_angle.cos as int,
    ) && dir_in_range(dim.rotation_angle.sin as int)) {
        Err(DiagnosticView::OutOfRange)
    } else if measure_line(dim).det(witness_line(dim)) == 0 {
        Err(DiagnosticView::DegenerateDimension)
    } else {
        match representable(measure_line(dim).meet(witness_line(dim))) {
            Some(p4) => Ok(seq![p2, Point3 { x: p4.x, y: p4.y, z: 0 }, p1, p3]),
            None => Err(DiagnosticView::OutOfRange),
        }
    }
}

pub open spec fn dimension_output(t: Seq<Step>, dim: RotatedDimension) -> (
    Seq<PrimitiveView>,
    Seq<DiagnosticView>,
) {
    match dimension_points(dim) {
        Ok(pts) => points_output(t, pts, Some(Color::Blue)),
        Err(dv) => (Seq::empty(), seq![dv]),
    }
}

/// Appends the primitive for `points` when it has at least two of them.
pub fn line_strip(points: Vec<Pos>, color: Option<Color>, prims: &mut Vec<LinePrimitive>)
    ensures
        prim_views(final(prims)@) == prim_views(old(prims)@) + strip_output(points@, color).0,
{
    if points.len() >= 2 {
        let prim = LinePrimitive { points, color };
        prims.push(prim);
        assert(prim_views(final(prims)@) =~= prim_views(old(prims)@) + seq![prim@]);
    } else {
        assert(prim_views(final(prims)@) =~= prim_views(old(prims)@) + Seq::<PrimitiveView>::empty());
    }
}

fn push_diag(d: Diagnostic, diags: &mut Vec<Diagnostic>)
    ensures
        diag_views(final(diags)@) == diag_views(old(diags)@) + seq![d@],
{
    let ghost v = d@;
    diags.push(d);
    assert(diag_views(final(diags)@) =~= diag_views(old(diags)@) + seq![v]);
}

/// Emits the chain of `vs` under `t`, or a diagnostic when a point leaves the
/// coordinate range.
fn draw_points(
    t: &Transform,
    vs: &Vec<Point3>,
    color: Option<Color>,
    prims: &mut Vec<LinePrimitive>,
    diags: &mut Vec<Diagnostic>,
)
    ensures
        prim_views(final(prims)@) == prim_views(old(prims)@) + points_output(t@, vs@, color).0,
        diag_views(final(diags)@) == diag_views(old(diags)@) + points_output(t@, vs@, color).1,
{
    let mut out: Vec<Pos> = Vec::new();
    let mut i: usize = 0;
    while i < vs.len()
        invariant
            i <= vs.len(),
            map_points(t@, vs@.take(i as int)) == Some(out@),
            prims@ == old(prims)@,
            diags@ == old(diags)@,
        decreases vs.len() - i,
    {
        assert(vs@.take(i + 1).drop_last() =~= vs@.take(i as int));
        match t.apply(&vs[i]) {
            Some(q) => {
                out.push(Pos { x: q.x, y: q.y });
            },
            None => {
                proof {
                    lemma_map_points_none(t@, vs@, i as int + 1);
                }
                push_diag(Diagnostic::OutOfRange, diags);
                assert(prim_views(final(prims)@) =~= prim_views(old(prims)@) + Seq::<PrimitiveView>::empty());
                return;
            },
        }
        i += 1;
    }
    assert(vs@.take(i as int) =~= vs@);
    line_strip(out, color, prims);
    assert(diag_views(final(diags)@) =~= diag_views(old(diags)@) + Seq::<DiagnosticView>::empty());
}

/// Once a prefix cannot be mapped, neither can any longer prefix.
proof fn lemma_map_points_none(t: Seq<Step>, vs: Seq<Point3>, k: int)
    requires
        0 <= k <= vs.len(),
        map_points(t, vs.take(k)) is None,
    ensures
        map_points(t, vs) is None,
    decreases vs.len() - k,
{
    if k < vs.len() {
        assert(vs.take(k + 1).drop_last() =~= vs.take(k));
        lemma_map_points_none(t, vs, k + 1);
    } else {
        assert(vs.take(k) =~= vs);
    }
}

/// Emits the segment from `p1` to `p2` under `t`.
pub fn draw_line(
    t: &Transform,
    p1: &Point3,
    p2: &Point3,
    prims: &mut Vec<LinePrimitive>,
    diags: &mut Vec<Diagnostic>,
)
    ensures
        prim_views(final(prims)@) == prim_views(old(prims)@) + points_output(t@, seq![*p1, *p2], None).0,
        diag_views(final(diags)@) == diag_views(old(diags)@) + points_output(t@, seq![*p1, *p2], None).1,
{
    let vs = vec![*p1, *p2];
    draw_points(t, &vs, None, prims, diags);
}

/// Emits the chain of a polyline's vertices under `t`.
pub fn draw_polyline(
    t: &Transform,
    vertices: &Vec<Point3>,
    prims: &mut Vec<LinePrimitive>,
    diags: &mut Vec<Diagnostic>,
)
    ensures
        prim_views(final(prims)@) == prim_views(old(prims)@) + points_output(t@, vertices@, None).0,
        diag_views(final(diags)@) == diag_views(old(diags)@) + points_output(t@, vertices@, None).1,
{
    draw_points(t, vertices, None, prims, diags);
}

fn fits_dir(v: i64) -> (r: bool)
    ensures
        r == dir_in_range(v as int),
{
    let k: i128 = 2 * COORD_LIMIT as i128;
    -k <= v as i128 && v as i128 <= k
}

/// The witness-line polyline of a dimension, or the diagnostic that stands
/// in its place.
pub fn dimension_geometry(dim: &RotatedDimension) -> (r: Result<Vec<Point3>, Diagnostic>)
    ensures
        match dimension_points(*dim) {
            Ok(pts) => r matches Ok(v) && v@ == pts,
            Err(dv) => r matches Err(e) && e@ == dv,
        },
{
    let p1 = dim.definition_point_1;
    let p2 = dim.definition_point_2;
    let p3 = dim.definition_point_3;
    if !(p1.in_range_exec() && p2.in_range_exec() && p3.in_range_exec() && fits_dir(
        dim.rotation_angle.cos,
    ) && fits_dir(dim.rotation_angle.sin)) {
        return Err(Diagnostic::OutOfRange);
    }
    let measure = Line { point: p1.xy(), dir: Pos { x: dim.rotation_angle.cos, y: dim.rotation_angle.sin } };
    let witness = Line { point: p2.xy(), dir: Pos { x: p1.x - p3.x, y: p1.y - p3.y } };
    assert(measure == measure_line(*dim));
    assert(witness == witness_line(*dim));
    if measure.det_is_zero(&witness) {
        return Err(Diagnostic::DegenerateDimension);
    }
    match measure.intersection(&witness) {
        Some(p4) => Ok(vec![p2, Point3 { x: p4.x, y: p4.y, z: 0 }, p1, p3]),
        None => Err(Diagnostic::OutOfRange),
    }
}

/// Emits the witness lines of a dimension under `t`, in blue.
pub fn draw_rotated_dimension(
    t: &Transform,
    dim: &RotatedDimension,
    prims: &mut Vec<LinePrimitive>,
    diags: &mut Vec<Diagnostic>,
)
    ensures
        prim_views(final(prims)@) == prim_views(old(prims)@) + dimension_output(t@, *dim).0,
        diag_views(final(diags)@) == diag_views(old(diags)@) + dimension_output(t@, *dim).1,
{
    match dimension_geometry(dim) {
        Ok(pts) => draw_points(t, &pts, Some(Color::Blue), prims, diags),
        Err(e) => {
            push_diag(e, diags);
            assert(prim_views(final(prims)@) =~= prim_views(old(prims)@) + Seq::<PrimitiveView>::empty());
        },
    }
}

/// A fatal failure of the walk.
#[derive(Clone, Copy, Debug, PartialEq, Eq, Structural)]
pub enum FlattenError {
    /// The block at this index of the block table instances itself, directly
    /// or through other blocks.
    BlockCycle { block: usize },
}

/// What an entity that is not an insert contributes under `t`.
pub open spec fn entity_output(t: Seq<Step>, e: Entity) -> (Seq<PrimitiveView>, Seq<DiagnosticView>) {
    match e {
        Entity::Line { p1, p2 } => points_output(t, seq![p1, p2], None),
        Entity::Polyline { vertices } => points_output(t, vertices@, None),
        Entity::RotatedDimension(dim) => dimension_output(t, dim),
        Entity::Other { kind } => (Seq::empty(), seq![DiagnosticView::UnsupportedEntity(kind@)]),
        Entity::Insert(_) => (Seq::empty(), Seq::empty()),
    }
}

/// The output of one part followed by that of the next; the first failure
/// wins.
pub open spec fn join(
    a: Result<(Seq<PrimitiveView>, Seq<DiagnosticView>), FlattenError>,
    b: Result<(Seq<PrimitiveView>, Seq<DiagnosticView>), FlattenError>,
) -> Result<(Seq<PrimitiveView>, Seq<DiagnosticView>), FlattenError> {
    match a {
        Err(e) => Err(e),
        Ok((pa, da)) => match b {
            Err(e) => Err(e),
            Ok((pb, db)) => Ok((pa + pb, da + db)),
        },
    }
}

/// How many of the first `n` blocks are not on the resolution stack.
pub open spec fn unvisited(stack: Seq<int>, n: int) -> nat
    decreases n,
{
    if n <= 0 {
        0
    } else {
        unvisited(stack, n - 1) + if stack.contains(n - 1) {
            0nat
        } else {
            1nat
        }
    }
}

proof fn lemma_unvisited_push(stack: Seq<int>, k: int, n: int)
    requires
        !stack.contains(k),
    ensures
        unvisited(stack.push(k), n) <= unvisited(stack, n),
        0 <= k < n ==> unvisited(stack.push(k), n) < unvisited(stack, n),
    decreases n,
{
    if n > 0 {
        lemma_unvisited_push(stack, k, n - 1);
        let s2 = stack.push(k);
        if n - 1 == k {
            assert(s2[stack.len() as int] == k);
            assert(s2.contains(n - 1));
        } else {
            if s2.contains(n - 1) {
                let j = choose|j: int| 0 <= j < s2.len() && s2[j] == n - 1;
                assert(stack[j] == n - 1);
            }
            if stack.contains(n - 1) {
                let j = choose|j: int| 0 <= j < stack.len() && stack[j] == n - 1;
                assert(s2[j] == n - 1);
            }
            assert(s2.contains(n - 1) == stack.contains(n - 1));
        }
    }
}

/// The primitives and diagnostics of an entity list under `t`, in order,
/// with the blocks at the indices in `stack` being resolved already.
pub open spec fn flat_list(blocks: Seq<Block>, es: Seq<Entity>, t: Seq<Step>, stack: Seq<int>) -> Result<
    (Seq<PrimitiveView>, Seq<DiagnosticView>),
    FlattenError,
>
    decreases unvisited(stack, blocks.len() as int), es.len(),
{
    if es.len() == 0 {
        Ok((Seq::empty(), Seq::empty()))
    } else {
        join(flat_entity(blocks, es[0], t, stack), flat_list(blocks, es.skip(1), t, stack))
    }
}

/// What one entity contributes. An insert of a missing block gives one
/// diagnostic; an insert of a block on the stack is a cycle; any other
/// insert gives the block's contents under its placement, then `t`.
pub open spec fn flat_entity(blocks: Seq<Block>, e: Entity, t: Seq<Step>, stack: Seq<int>) -> Result<
    (Seq<PrimitiveView>, Seq<DiagnosticView>),
    FlattenError,
>
    decreases unvisited(stack, blocks.len() as int), 0nat,
    via flat_entity_decreases
{
    match e {
        Entity::Insert(ins) => match block_index(blocks, ins.name@) {
            None => Ok((Seq::empty(), seq![DiagnosticView::MissingBlock(ins.name@)])),
            Some(i) => if stack.contains(i) {
                Err(FlattenError::BlockCycle { block: i as usize })
            } else {
                flat_list(
                    blocks,
                    blocks[i].entities@,
                    seq![Step::Place(ins.placement_spec())] + t,
                    stack.push(i),
                )
            },
        },
        _ => Ok(entity_output(t, e)),
    }
}

#[via_fn]
proof fn flat_entity_decreases(blocks: Seq<Block>, e: Entity, t: Seq<Step>, stack: Seq<int>) {
    if let Entity::Insert(ins) = e {
        lemma_block_index(blocks, ins.name@);
        if let Some(i) = block_index(blocks, ins.name@) {
            if !stack.contains(i) {
                lemma_unvisited_push(stack, i, blocks.len() as int);
            }
        }
    }
}

/// The resolution stack as block indices.
pub open spec fn stack_view(v: Seq<usize>) -> Seq<int> {
    v.map_values(|x: usize| x as int)
}

/// The outcome `out` was carried out: on success its primitives and
/// diagnostics were appended, in order, and a failure is reported as is.
pub open spec fn emitted(
    out: Result<(Seq<PrimitiveView>, Seq<DiagnosticView>), FlattenError>,
    r: Result<(), FlattenError>,
    p0: Seq<LinePrimitive>,
    p1: Seq<LinePrimitive>,
    d0: Seq<Diagnostic>,
    d1: Seq<Diagnostic>,
) -> bool {
    match out {
        Ok((ps, ds)) => {
            &&& r is Ok
            &&& prim_views(p1) == prim_views(p0) + ps
            &&& diag_views(d1) == diag_views(d0) + ds
        },
        Err(e) => r == Err::<(), FlattenError>(e),
    }
}

/// `join` is associative.
pub proof fn lemma_join_assoc(
    x: Result<(Seq<PrimitiveView>, Seq<DiagnosticView>), FlattenError>,
    y: Result<(Seq<PrimitiveView>, Seq<DiagnosticView>), FlattenError>,
    z: Result<(Seq<PrimitiveView>, Seq<DiagnosticView>), FlattenError>,
)
    ensures
        join(x, join(y, z)) == join(join(x, y), z),
{
    if let Ok((px, dx)) = x {
        if let Ok((py, dy)) = y {
            if let Ok((pz, dz)) = z {
                assert(px + (py + pz) =~= (px + py) + pz);
                assert(dx + (dy + dz) =~= (dx + dy) + dz);
            }
        }
    }
}

fn on_stack(stack: &Vec<usize>, i: usize) -> (r: bool)
    ensures
        r == stack_view(stack@).contains(i as int),
{
    let mut k: usize = 0;
    while k < stack.len()
        invariant
            k <= stack.len(),
            forall|j: int| 0 <= j < k ==> stack@[j] != i,
        decreases stack.len() - k,
    {
        if stack[k] == i {
            assert(stack_view(stack@)[k as int] == i as int);
            return true;
        }
        k += 1;
    }
    assert forall|j: int| 0 <= j < stack_view(stack@).len() implies stack_view(stack@)[j] != i as int by {
        assert(stack@[j] != i);
    }
    false
}

fn pushed(stack: &Vec<usize>, i: usize) -> (r: Vec<usize>)
    ensures
        stack_view(r@) == stack_view(stack@).push(i as int),
{
    let mut r: Vec<usize> = Vec::new();
    let mut k: usize = 0;
    while k < stack.len()
        invariant
            k <= stack.len(),
            r@ == stack@.take(k as int),
        decreases stack.len() - k,
    {
        r.push(stack[k]);
        k += 1;
        assert(r@ =~= stack@.take(k as int));
    }
    assert(r@ =~= stack@);
    r.push(i);
    assert(stack_view(r@) =~= stack_view(stack@).push(i as int));
    r
}

/// Walks `es` in order under `t`, appending what each entity contributes.
pub fn draw_entities(
    d: &Drawing,
    es: &Vec<Entity>,
    t: &Transform,
    stack: &Vec<usize>,
    prims: &mut Vec<LinePrimitive>,
    diags: &mut Vec<Diagnostic>,
) -> (r: Result<(), FlattenError>)
    ensures
        emitted(
            flat_list(d.blocks@, es@, t@, stack_view(stack@)),
            r,
            old(prims)@,
            final(prims)@,
            old(diags)@,
            final(diags)@,
        ),
    decreases unvisited(stack_view(stack@), d.blocks@.len() as int), es@.len(), 2nat,
{
    let ghost blocks = d.blocks@;
    let ghost sv = stack_view(stack@);
    let ghost mut acc_p: Seq<PrimitiveView> = Seq::empty();
    let ghost mut acc_d: Seq<DiagnosticView> = Seq::empty();
    let mut i: usize = 0;
    assert(es@.skip(0) =~= es@);
    assert(prim_views(prims@) =~= prim_views(old(prims)@) + acc_p);
    assert(diag_views(diags@) =~= diag_views(old(diags)@) + acc_d);
    proof {
        let rest = flat_list(blocks, es@, t@, sv);
        if let Ok((pr, dr)) = rest {
            assert(acc_p + pr =~= pr);
            assert(acc_d + dr =~= dr);
        }
    }
    while i < es.len()
        invariant
            i <= es.len(),
            blocks == d.blocks@,
            sv == stack_view(stack@),
            prim_views(prims@) == prim_views(old(prims)@) + acc_p,
            diag_views(diags@) == diag_views(old(diags)@) + acc_d,
            flat_list(blocks, es@, t@, sv) == join(Ok((acc_p, acc_d)), flat_list(blocks, es@.skip(i as int), t@, sv)),
        decreases es.len() - i,
    {
        assert(es@.skip(i as int)[0] == es@[i as int]);
        assert(es@.skip(i as int).skip(1) =~= es@.skip(i + 1));
        let r = draw_entity(d, &es[i], t, stack, prims, diags);
        let ghost head = flat_entity(blocks, es@[i as int], t@, sv);
        let ghost tail = flat_list(blocks, es@.skip(i + 1), t@, sv);
        proof {
            lemma_join_assoc(Ok((acc_p, acc_d)), head, tail);
        }
        match r {
            Err(e) => {
                return Err(e);
            },
            Ok(()) => {},
        }
        proof {
            let (ph, dh) = head->Ok_0;
            assert(prim_views(prims@) =~= prim_views(old(prims)@) + (acc_p + ph));
            assert(diag_views(diags@) =~= diag_views(old(diags)@) + (acc_d + dh));
            acc_p = acc_p + ph;
            acc_d = acc_d + dh;
        }
        i += 1;
    }
    assert(acc_p + Seq::<PrimitiveView>::empty() =~= acc_p);
    assert(acc_d + Seq::<DiagnosticView>::empty() =~= acc_d);
    Ok(())
}

/// Appends what one entity contributes under `t`.
pub fn draw_entity(
    d: &Drawing,
    e: &Entity,
    t: &Transform,
    stack: &Vec<usize>,
    prims: &mut Vec<LinePrimitive>,
    diags: &mut Vec<Diagnostic>,
) -> (r: Result<(), FlattenError>)
    ensures
        emitted(
            flat_entity(d.blocks@, *e, t@, stack_view(stack@)),
            r,
            old(prims)@,
            final(prims)@,
            old(diags)@,
            final(diags)@,
        ),
    decreases unvisited(stack_view(stack@), d.blocks@.len() as int), 0nat, 1nat,
{
    match e {
        Entity::Line { p1, p2 } => {
            draw_line(t, p1, p2, prims, diags);
            Ok(())
        },
        Entity::Polyline { vertices } => {
            draw_polyline(t, vertices, prims, diags);
            Ok(())
        },
        Entity::RotatedDimension(dim) => {
            draw_rotated_dimension(t, dim, prims, diags);
            Ok(())
        },
        Entity::Insert(ins) => draw_insert(d, ins, t, stack, prims, diags),
        Entity::Other { kind } => {
            push_diag(Diagnostic::UnsupportedEntity { kind: kind.clone() }, diags);
            assert(prim_views(final(prims)@) =~= prim_views(old(prims)@) + Seq::<PrimitiveView>::empty());
            Ok(())
        },
    }
}

/// Appends the contents of the block that `ins` names, placed by `ins` and
/// then by `t`; a diagnostic when there is no such block.
pub fn draw_insert(
    d: &Drawing,
    ins: &Insert,
    t: &Transform,
    stack: &Vec<usize>,
    prims: &mut Vec<LinePrimitive>,
    diags: &mut Vec<Diagnostic>,
) -> (r: Result<(), FlattenError>)
    ensures
        emitted(
            flat_entity(d.blocks@, Entity::Insert(*ins), t@, stack_view(stack@)),
            r,
            old(prims)@,
            final(prims)@,
            old(diags)@,
            final(diags)@,
        ),
    decreases unvisited(stack_view(stack@), d.blocks@.len() as int), 0nat, 0nat,
{
    match d.find_block(&ins.name) {
        None => {
            push_diag(Diagnostic::MissingBlock { name: ins.name.clone() }, diags);
            assert(prim_views(final(prims)@) =~= prim_views(old(prims)@) + Seq::<PrimitiveView>::empty());
            Ok(())
        },
        Some(bi) => {
            proof {
                lemma_block_index(d.blocks@, ins.name@);
            }
            assert(d.blocks@.len() == d.blocks.len());
            if on_stack(stack, bi) {
                return Err(FlattenError::BlockCycle { block: bi });
            }
            let inner = pushed(stack, bi);
            let tr = Transform::placement(ins.placement()).followed_by(t);
            proof {
                lemma_unvisited_push(stack_view(stack@), bi as int, d.blocks@.len() as int);
            }
            draw_entities(d, &d.blocks[bi].entities, &tr, &inner, prims, diags)
        },
    }
}

/// Flattens the drawing's top-level entities under `t`: the primitives in
/// depth-first, declaration order, and the diagnostics met on the way.
pub fn flatten(d: &Drawing, t: &Transform) -> (r: Result<(Vec<LinePrimitive>, Vec<Diagnostic>), FlattenError>)
    ensures
        match flat_list(d.blocks@, d.entities@, t@, Seq::empty()) {
            Ok((ps, ds)) => r matches Ok((pv, dv)) && prim_views(pv@) == ps && diag_views(dv@) == ds,
            Err(e) => r matches Err(x) && x == e,
        },
{
    let mut prims: Vec<LinePrimitive> = Vec::new();
    let mut diags: Vec<Diagnostic> = Vec::new();
    let stack: Vec<usize> = Vec::new();
    assert(stack_view(stack@) =~= Seq::<int>::empty());
    assert(prim_views(prims@) =~= Seq::<PrimitiveView>::empty());
    assert(diag_views(diags@) =~= Seq::<DiagnosticView>::empty());
    match draw_entities(d, &d.entities, t, &stack, &mut prims, &mut diags) {
        Ok(()) => {
            proof {
                let (ps, ds) = flat_list(d.blocks@, d.entities@, t@, Seq::empty())->Ok_0;
                assert(prim_views(prims@) =~= ps);
                assert(diag_views(diags@) =~= ds);
            }
            Ok((prims, diags))
        },
        Err(e) => Err(e),
    }
}

/// Flattening a concatenation of entity lists is flattening each in turn.
pub proof fn lemma_flat_list_append(blocks: Seq<Block>, a: Seq<Entity>, b: Seq<Entity>, t: Seq<Step>, stack: Seq<int>)
    ensures
        flat_list(blocks, a + b, t, stack) == join(flat_list(blocks, a, t, stack), flat_list(blocks, b, t, stack)),
    decreases a.len(),
{
    if a.len() == 0 {
        assert(a + b =~= b);
        if let Ok((pb, db)) = flat_list(blocks, b, t, stack) {
            assert(Seq::<PrimitiveView>::empty() + pb =~= pb);
            assert(Seq::<DiagnosticView>::empty() + db =~= db);
        }
    } else {
        assert((a + b)[0] == a[0]);
        assert((a + b).skip(1) =~= a.skip(1) + b);
        lemma_flat_list_append(blocks, a.skip(1), b, t, stack);
        lemma_join_assoc(
            flat_entity(blocks, a[0], t, stack),
            flat_list(blocks, a.skip(1), t, stack),
            flat_list(blocks, b, t, stack),
        );
    }
}

/// The output of a list around its entity at `k`: what comes before, what
/// that entity contributes, and what comes after, in this order.
pub proof fn lemma_flat_list_split(blocks: Seq<Block>, es: Seq<Entity>, k: int, t: Seq<Step>, stack: Seq<int>)
    requires
        0 <= k < es.len(),
    ensures
        flat_list(blocks, es, t, stack) == join(
            flat_list(blocks, es.take(k), t, stack),
            join(flat_entity(blocks, es[k], t, stack), flat_list(blocks, es.skip(k + 1), t, stack)),
        ),
{
    assert(es =~= es.take(k) + es.skip(k));
    lemma_flat_list_append(blocks, es.take(k), es.skip(k), t, stack);
    assert(es.skip(k)[0] == es[k]);
    assert(es.skip(k).skip(1) =~= es.skip(k + 1));
}

/// A line gives exactly one primitive: its two endpoints under `t`, in
/// order, with no color tag.
pub proof fn lemma_line_output(blocks: Seq<Block>, p1: Point3, p2: Point3, t: Seq<Step>, stack: Seq<int>)
    requires
        apply_steps(t, p1) is Some,
        apply_steps(t, p2) is Some,
    ensures
        ({
            let q1 = apply_steps(t, p1)->Some_0;
            let q2 = apply_steps(t, p2)->Some_0;
            flat_entity(blocks, Entity::Line { p1, p2 }, t, stack) == Ok::<_, FlattenError>(
                (
                    seq![PrimitiveView { points: seq![Pos { x: q1.x, y: q1.y }, Pos { x: q2.x, y: q2.y }], color: None }],
                    Seq::<DiagnosticView>::empty(),
                ),
            )
        }),
{
    let vs = seq![p1, p2];
    assert(vs.drop_last() =~= seq![p1]);
    assert(vs.drop_last().drop_last() =~= Seq::<Point3>::empty());
    assert(seq![p1].drop_last() =~= Seq::<Point3>::empty());
    let q1 = apply_steps(t, p1)->Some_0;
    let q2 = apply_steps(t, p2)->Some_0;
    assert(map_points(t, seq![p1]) == Some(seq![Pos { x: q1.x, y: q1.y }])) by {
        assert(seq![p1].drop_last() =~= Seq::<Point3>::empty());
        assert(seq![p1].last() == p1);
        assert(map_points(t, Seq::<Point3>::empty()) == Some(Seq::<Pos>::empty()));
        assert(Seq::<Pos>::empty().push(Pos { x: q1.x, y: q1.y }) =~= seq![Pos { x: q1.x, y: q1.y }]);
    }
    assert(seq![Pos { x: q1.x, y: q1.y }].push(Pos { x: q2.x, y: q2.y }) =~= seq![Pos { x: q1.x, y: q1.y }, Pos { x: q2.x, y: q2.y }]);
}

/// Mapping a chain maps each point, in order, and fails exactly when some
/// point leaves the coordinate range.
pub proof fn lemma_map_points(t: Seq<Step>, vs: Seq<Point3>)
    ensures
        match map_points(t, vs) {
            Some(ps) => {
                &&& ps.len() == vs.len()
                &&& forall|i: int| 0 <= i < vs.len() ==> #[trigger] apply_steps(t, vs[i]) is Some
                    && ps[i] == (Pos { x: apply_steps(t, vs[i])->Some_0.x, y: apply_steps(t, vs[i])->Some_0.y })
            },
            None => exists|i: int| 0 <= i < vs.len() && #[trigger] apply_steps(t, vs[i]) is None,
        },
    decreases vs.len(),
{
    if vs.len() > 0 {
        let init = vs.drop_last();
        lemma_map_points(t, init);
        assert forall|i: int| 0 <= i < init.len() implies init[i] == vs[i] by {}
        match map_points(t, init) {
            Some(ps) => {
                if apply_steps(t, vs.last()) is None {
                    assert(apply_steps(t, vs[vs.len() - 1]) is None);
                }
            },
            None => {
                let i = choose|i: int| 0 <= i < init.len() && #[trigger] apply_steps(t, init[i]) is None;
                assert(apply_steps(t, vs[i]) is None);
            },
        }
    }
}

/// A polyline whose vertices all map gives the chain of its mapped vertices
/// in order, with no color tag, when it has two vertices or more, and
/// nothing when it has fewer.
pub proof fn lemma_polyline_output(blocks: Seq<Block>, vertices: Vec<Point3>, t: Seq<Step>, stack: Seq<int>)
    requires
        forall|i: int| 0 <= i < vertices@.len() ==> #[trigger] apply_steps(t, vertices@[i]) is Some,
    ensures
        flat_entity(blocks, Entity::Polyline { vertices }, t, stack) matches Ok((prims, diags)) && diags.len() == 0
            && (vertices@.len() < 2 ==> prims.len() == 0)
            && (vertices@.len() >= 2 ==> {
                &&& prims.len() == 1
                &&& prims[0].color is None
                &&& prims[0].points.len() == vertices@.len()
                &&& forall|i: int| 0 <= i < vertices@.len() ==> prims[0].points[i] == (Pos {
                    x: (#[trigger] apply_steps(t, vertices@[i]))->Some_0.x,
                    y: apply_steps(t, vertices@[i])->Some_0.y,
                })
            }),
{
    lemma_map_points(t, vertices@);
}

/// An insert of a block that the drawing lacks gives no primitive and one
/// diagnostic naming the block; the entities around it contribute what they
/// would without it.
pub proof fn lemma_missing_block(blocks: Seq<Block>, es: Seq<Entity>, k: int, t: Seq<Step>, stack: Seq<int>)
    requires
        0 <= k < es.len(),
        es[k] is Insert,
        block_index(blocks, es[k]->Insert_0.name@) is None,
    ensures
        flat_entity(blocks, es[k], t, stack) == Ok::<_, FlattenError>(
            (Seq::<PrimitiveView>::empty(), seq![DiagnosticView::MissingBlock(es[k]->Insert_0.name@)]),
        ),
        flat_list(blocks, es, t, stack) == join(
            flat_list(blocks, es.take(k), t, stack),
            join(
                Ok((Seq::<PrimitiveView>::empty(), seq![DiagnosticView::MissingBlock(es[k]->Insert_0.name@)])),
                flat_list(blocks, es.skip(k + 1), t, stack),
            ),
        ),
{
    lemma_flat_list_split(blocks, es, k, t, stack);
}

/// An insert of a block that is being resolved already is a cycle.
pub proof fn lemma_insert_on_stack(blocks: Seq<Block>, ins: Insert, t: Seq<Step>, stack: Seq<int>)
    requires
        block_index(blocks, ins.name@) matches Some(i) && stack.contains(i),
    ensures
        flat_entity(blocks, Entity::Insert(ins), t, stack) == Err::<(Seq<PrimitiveView>, Seq<DiagnosticView>), FlattenError>(
            FlattenError::BlockCycle { block: block_index(blocks, ins.name@)->Some_0 as usize },
        ),
{
}

/// A list with a failing entity fails.
pub proof fn lemma_failing_entity(blocks: Seq<Block>, es: Seq<Entity>, k: int, t: Seq<Step>, stack: Seq<int>)
    requires
        0 <= k < es.len(),
        flat_entity(blocks, es[k], t, stack) is Err,
    ensures
        flat_list(blocks, es, t, stack) is Err,
{
    lemma_flat_list_split(blocks, es, k, t, stack);
}

/// Instancing a block that contains an insert of itself ends in a cycle
/// error, under any transform and from any stack.
pub proof fn lemma_self_instancing(blocks: Seq<Block>, ins: Insert, i: int, k: int, t: Seq<Step>, stack: Seq<int>)
    requires
        block_index(blocks, ins.name@) == Some(i),
        0 <= k < blocks[i].entities@.len(),
        blocks[i].entities@[k] is Insert,
        block_index(blocks, blocks[i].entities@[k]->Insert_0.name@) == Some(i),
    ensures
        flat_entity(blocks, Entity::Insert(ins), t, stack) is Err,
{
    if !stack.contains(i) {
        let es = blocks[i].entities@;
        let t2 = seq![Step::Place(ins.placement_spec())] + t;
        let s2 = stack.push(i);
        assert(s2[stack.len() as int] == i);
        lemma_insert_on_stack(blocks, es[k]->Insert_0, t2, s2);
        lemma_failing_entity(blocks, es, k, t2, s2);
    }
}

/// The block at `i` holds an insert that resolves to the block at `j`.
pub open spec fn instances(blocks: Seq<Block>, i: int, j: int) -> bool {
    exists|k: int|
        0 <= k < blocks[i].entities@.len() && (#[trigger] blocks[i].entities@[k]) is Insert
            && block_index(blocks, blocks[i].entities@[k]->Insert_0.name@) == Some(j)
}

/// Instancing a block that leads, through a chain of blocks each instancing
/// the next, back to a block of the chain or to one being resolved already
/// ends in a cycle error.
pub proof fn lemma_instancing_chain(
    blocks: Seq<Block>,
    ins: Insert,
    chain: Seq<int>,
    back: int,
    t: Seq<Step>,
    stack: Seq<int>,
)
    requires
        chain.len() >= 1,
        block_index(blocks, ins.name@) == Some(chain[0]),
        forall|s: int| 0 <= s < chain.len() - 1 ==> instances(blocks, chain[s], #[trigger] chain[s + 1]),
        instances(blocks, chain.last(), back),
        chain.contains(back) || stack.contains(back),
    ensures
        flat_entity(blocks, Entity::Insert(ins), t, stack) is Err,
    decreases chain.len(),
{
    let i = chain[0];
    if !stack.contains(i) {
        let es = blocks[i].entities@;
        let t2 = seq![Step::Place(ins.placement_spec())] + t;
        let s2 = stack.push(i);
        assert(s2[stack.len() as int] == i);
        assert forall|v: int| stack.contains(v) implies s2.contains(v) by {
            let j = choose|j: int| 0 <= j < stack.len() && stack[j] == v;
            assert(s2[j] == v);
        }
        if chain.len() == 1 {
            let k = choose|k: int|
                0 <= k < es.len() && (#[trigger] es[k]) is Insert && block_index(blocks, es[k]->Insert_0.name@) == Some(back);
            if chain.contains(back) {
                let j = choose|j: int| 0 <= j < chain.len() && chain[j] == back;
                assert(back == i);
            }
            lemma_insert_on_stack(blocks, es[k]->Insert_0, t2, s2);
            lemma_failing_entity(blocks, es, k, t2, s2);
        } else {
            assert(instances(blocks, chain[0], chain[1]));
            let k = choose|k: int|
                0 <= k < es.len() && (#[trigger] es[k]) is Insert && block_index(blocks, es[k]->Insert_0.name@) == Some(chain[1]);
            let rest = chain.skip(1);
            assert forall|s: int| 0 <= s < rest.len() - 1 implies instances(blocks, rest[s], #[trigger] rest[s + 1]) by {
                let s1 = s + 1;
                assert(instances(blocks, chain[s1], chain[s1 + 1]));
                assert(rest[s] == chain[s1] && rest[s + 1] == chain[s1 + 1]);
            }
            assert(rest.last() == chain.last());
            if chain.contains(back) {
                let j = choose|j: int| 0 <= j < chain.len() && chain[j] == back;
                if j > 0 {
                    assert(rest[j - 1] == back);
                }
            }
            lemma_instancing_chain(blocks, es[k]->Insert_0, rest, back, t2, s2);
            lemma_failing_entity(blocks, es, k, t2, s2);
        }
    }
}

} // verus!
