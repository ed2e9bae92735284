use dxf2svg::geom::{div_floor, Line, Point3, Pos};
use dxf2svg::transform::{Placement, Rotation, Step, Transform, UNIT};

fn pt(x: i64, y: i64, z: i64) -> Point3 {
    Point3 { x, y, z }
}

fn line(px: i64, py: i64, dx: i64, dy: i64) -> Line {
    Line { point: Pos { x: px, y: py }, dir: Pos { x: dx, y: dy } }
}

fn identity_placement() -> Placement {
    Placement { scale_x: UNIT, scale_y: UNIT, scale_z: UNIT, rotation: Rotation::none(), offset: pt(0, 0, 0) }
}

#[test]
fn intersection_of_crossing_lines() {
    let a = line(0, 0, 1, 0);
    let b = line(1, -1, 0, 1);
    assert_eq!(a.intersection(&b), Some(Pos { x: 1, y: 0 }));
}

#[test]
fn intersection_of_parallel_lines_is_none() {
    let a = line(0, 0, 1, 0);
    let b = line(0, 5, 1, 0);
    assert_eq!(a.intersection(&b), None);
    let c = line(3, 3, -2, 0);
    assert_eq!(a.intersection(&c), None);
}

#[test]
fn intersection_rounds_down() {
    // the lines meet at (-1/2, 0): floor gives -1
    let a = line(0, 0, 1, 0);
    let b = line(0, 1, 1, 2);
    assert_eq!(a.intersection(&b), Some(Pos { x: -1, y: 0 }));
}

#[test]
fn floor_division() {
    assert_eq!(div_floor(7, 2), 3);
    assert_eq!(div_floor(-7, 2), -4);
    assert_eq!(div_floor(7, -2), -4);
    assert_eq!(div_floor(-7, -2), 3);
    assert_eq!(div_floor(-6, 3), -2);
}

#[test]
fn identity_placement_keeps_points() {
    let t = Transform::placement(identity_placement());
    for p in [pt(0, 0, 0), pt(-17, 42, 3), pt(123456, -987654, -1)] {
        assert_eq!(t.apply(&p), Some(p));
    }
    assert_eq!(Transform::identity().apply(&pt(5, 6, 7)), Some(pt(5, 6, 7)));
}

#[test]
fn scale_then_rotate_then_translate() {
    let pl = Placement {
        scale_x: 2 * UNIT,
        scale_y: UNIT,
        scale_z: 3 * UNIT,
        rotation: Rotation { cos: 0, sin: UNIT },
        offset: pt(10, 0, 1),
    };
    // (1, 1, 1) -> scale (2, 1, 3) -> rotate 90 (-1, 2, 3) -> move (9, 2, 4)
    assert_eq!(pl.apply(&pt(1, 1, 1)), Some(pt(9, 2, 4)));
}

#[test]
fn composition_is_associative_on_a_point() {
    let a = Transform::placement(Placement {
        scale_x: 2 * UNIT,
        scale_y: UNIT,
        scale_z: UNIT,
        rotation: Rotation::none(),
        offset: pt(1, 2, 0),
    });
    let b = Transform::placement(Placement {
        scale_x: UNIT,
        scale_y: UNIT,
        scale_z: UNIT,
        rotation: Rotation { cos: 0, sin: UNIT },
        offset: pt(0, 0, 0),
    });
    let c = Transform::flip_y(10);
    let p = pt(3, 4, 0);
    let left = a.followed_by(&b).followed_by(&c).apply(&p);
    let right = a.followed_by(&b.followed_by(&c)).apply(&p);
    assert_eq!(left, right);
    // a: (7, 6); b: (-6, 7); flip: (-6, 3)
    assert_eq!(left, Some(pt(-6, 3, 0)));
}

#[test]
fn flip_step_mirrors_y() {
    assert_eq!(Step::FlipY { axis: 50 }.apply(&pt(10, 10, 4)), Some(pt(10, 40, 4)));
}
