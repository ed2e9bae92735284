use dxf2svg::drawing::{Block, Drawing, Entity, Header, Insert, RotatedDimension};
use dxf2svg::flatten::{flatten, Color, Diagnostic, FlattenError, LinePrimitive};
use dxf2svg::geom::{Point3, COORD_LIMIT};
use dxf2svg::transform::{Rotation, Transform, UNIT};
use dxf2svg::viewport::{convert, ConvertError, ViewportError};

fn pt(x: i64, y: i64, z: i64) -> Point3 {
    Point3 { x, y, z }
}

fn header(min: Point3, max: Point3) -> Header {
    Header { minimum_drawing_limits: min, maximum_drawing_limits: max }
}

fn drawing(entities: Vec<Entity>, blocks: Vec<Block>) -> Drawing {
    Drawing { header: header(pt(0, 0, 0), pt(100, 50, 0)), entities, blocks }
}

fn insert(name: &str, location: Point3, sx: i64, sy: i64, sz: i64) -> Entity {
    Entity::Insert(Insert {
        name: name.to_string(),
        location,
        rotation: Rotation::none(),
        x_scale_factor: sx,
        y_scale_factor: sy,
        z_scale_factor: sz,
    })
}

fn line(a: Point3, b: Point3) -> Entity {
    Entity::Line { p1: a, p2: b }
}

fn points(p: &LinePrimitive) -> Vec<(i64, i64)> {
    p.points.iter().map(|q| (q.x, q.y)).collect()
}

#[test]
fn viewport_and_flip_of_a_single_line() {
    let d = drawing(vec![line(pt(10, 10, 0), pt(20, 10, 0))], vec![]);
    let c = convert(&d).unwrap();
    assert_eq!(
        (c.viewport.origin_x, c.viewport.origin_y, c.viewport.width, c.viewport.height),
        (0, 0, 100, 50)
    );
    assert_eq!(c.primitives.len(), 1);
    assert_eq!(points(&c.primitives[0]), vec![(10, 40), (20, 40)]);
    assert_eq!(c.primitives[0].color, None);
    assert!(c.diagnostics.is_empty());
}

#[test]
fn scaled_block_instance_before_flip() {
    let block = Block { name: "B".to_string(), entities: vec![line(pt(0, 0, 0), pt(1, 0, 0))] };
    let d = drawing(vec![insert("B", pt(5, 5, 0), 2 * UNIT, 2 * UNIT, UNIT)], vec![block]);
    let (prims, diags) = flatten(&d, &Transform::identity()).unwrap();
    assert_eq!(prims.len(), 1);
    assert_eq!(points(&prims[0]), vec![(5, 5), (7, 5)]);
    assert!(diags.is_empty());
}

#[test]
fn missing_block_gives_one_diagnostic_and_keeps_siblings() {
    let d = drawing(
        vec![
            line(pt(0, 0, 0), pt(1, 1, 0)),
            insert("nowhere", pt(0, 0, 0), UNIT, UNIT, UNIT),
            line(pt(2, 2, 0), pt(3, 3, 0)),
        ],
        vec![],
    );
    let (prims, diags) = flatten(&d, &Transform::identity()).unwrap();
    assert_eq!(prims.len(), 2);
    assert_eq!(points(&prims[0]), vec![(0, 0), (1, 1)]);
    assert_eq!(points(&prims[1]), vec![(2, 2), (3, 3)]);
    assert_eq!(diags.len(), 1);
    match &diags[0] {
        Diagnostic::MissingBlock { name } => assert_eq!(name, "nowhere"),
        other => panic!("unexpected diagnostic {:?}", other),
    }
}

#[test]
fn self_instancing_block_is_a_cycle() {
    let block = Block { name: "A".to_string(), entities: vec![insert("A", pt(1, 0, 0), UNIT, UNIT, UNIT)] };
    let d = drawing(vec![insert("A", pt(0, 0, 0), UNIT, UNIT, UNIT)], vec![block]);
    assert_eq!(flatten(&d, &Transform::identity()).unwrap_err(), FlattenError::BlockCycle { block: 0 });
    match convert(&d) {
        Err(e) => assert_eq!(e, ConvertError::Flatten(FlattenError::BlockCycle { block: 0 })),
        Ok(_) => panic!("a cycle must fail"),
    }
}

#[test]
fn mutually_instancing_blocks_are_a_cycle() {
    let a = Block {
        name: "A".to_string(),
        entities: vec![line(pt(0, 0, 0), pt(1, 0, 0)), insert("B", pt(0, 0, 0), UNIT, UNIT, UNIT)],
    };
    let b = Block { name: "B".to_string(), entities: vec![insert("A", pt(0, 0, 0), UNIT, UNIT, UNIT)] };
    let d = drawing(vec![insert("B", pt(0, 0, 0), UNIT, UNIT, UNIT)], vec![a, b]);
    assert_eq!(flatten(&d, &Transform::identity()).unwrap_err(), FlattenError::BlockCycle { block: 1 });
}

#[test]
fn block_instanced_twice_side_by_side_is_no_cycle() {
    let block = Block { name: "B".to_string(), entities: vec![line(pt(0, 0, 0), pt(1, 0, 0))] };
    let d = drawing(
        vec![insert("B", pt(0, 0, 0), UNIT, UNIT, UNIT), insert("B", pt(0, 3, 0), UNIT, UNIT, UNIT)],
        vec![block],
    );
    let (prims, _) = flatten(&d, &Transform::identity()).unwrap();
    assert_eq!(prims.len(), 2);
    assert_eq!(points(&prims[0]), vec![(0, 0), (1, 0)]);
    assert_eq!(points(&prims[1]), vec![(0, 3), (1, 3)]);
}

#[test]
fn nested_instances_compose_child_first() {
    let inner = Block { name: "inner".to_string(), entities: vec![line(pt(0, 0, 0), pt(1, 0, 0))] };
    let outer = Block {
        name: "outer".to_string(),
        entities: vec![insert("inner", pt(1, 0, 0), 3 * UNIT, UNIT, UNIT)],
    };
    let d = drawing(vec![insert("outer", pt(10, 20, 0), 2 * UNIT, 2 * UNIT, UNIT)], vec![inner, outer]);
    let (prims, _) = flatten(&d, &Transform::identity()).unwrap();
    // inner: (0,0)->(1,0), (1,0)->(4,0); outer: x2 then +(10,20)
    assert_eq!(points(&prims[0]), vec![(12, 20), (18, 20)]);
}

#[test]
fn first_block_of_a_name_wins() {
    let first = Block { name: "B".to_string(), entities: vec![line(pt(0, 0, 0), pt(1, 0, 0))] };
    let second = Block { name: "B".to_string(), entities: vec![line(pt(0, 0, 0), pt(0, 9, 0))] };
    let d = drawing(vec![insert("B", pt(0, 0, 0), UNIT, UNIT, UNIT)], vec![first, second]);
    assert_eq!(d.find_block(&"B".to_string()), Some(0));
    assert_eq!(d.find_block(&"C".to_string()), None);
    let (prims, _) = flatten(&d, &Transform::identity()).unwrap();
    assert_eq!(points(&prims[0]), vec![(0, 0), (1, 0)]);
}

#[test]
fn polyline_keeps_vertex_order() {
    let vs = vec![pt(0, 0, 0), pt(4, 0, 0), pt(4, 3, 0), pt(1, 7, 0)];
    let d = drawing(vec![Entity::Polyline { vertices: vs }], vec![]);
    let (prims, diags) = flatten(&d, &Transform::identity()).unwrap();
    assert_eq!(prims.len(), 1);
    assert_eq!(points(&prims[0]), vec![(0, 0), (4, 0), (4, 3), (1, 7)]);
    assert!(diags.is_empty());
}

#[test]
fn short_polylines_emit_nothing() {
    let d = drawing(
        vec![Entity::Polyline { vertices: vec![] }, Entity::Polyline { vertices: vec![pt(1, 1, 0)] }],
        vec![],
    );
    let (prims, diags) = flatten(&d, &Transform::identity()).unwrap();
    assert!(prims.is_empty());
    assert!(diags.is_empty());
}

#[test]
fn unsupported_entity_is_reported_and_skipped() {
    let d = drawing(vec![Entity::Other { kind: "CIRCLE".to_string() }, line(pt(0, 0, 0), pt(0, 1, 0))], vec![]);
    let (prims, diags) = flatten(&d, &Transform::identity()).unwrap();
    assert_eq!(prims.len(), 1);
    assert_eq!(diags.len(), 1);
    match &diags[0] {
        Diagnostic::UnsupportedEntity { kind } => assert_eq!(kind, "CIRCLE"),
        other => panic!("unexpected diagnostic {:?}", other),
    }
}

#[test]
fn rotated_dimension_witness_lines() {
    let dim = RotatedDimension {
        definition_point_1: pt(0, 0, 0),
        definition_point_2: pt(10, 5, 0),
        definition_point_3: pt(0, -5, 0),
        rotation_angle: Rotation::none(),
    };
    let d = drawing(vec![Entity::RotatedDimension(dim)], vec![]);
    let (prims, diags) = flatten(&d, &Transform::identity()).unwrap();
    assert!(diags.is_empty());
    assert_eq!(prims.len(), 1);
    assert_eq!(points(&prims[0]), vec![(10, 5), (10, 0), (0, 0), (0, -5)]);
    assert_eq!(prims[0].color, Some(Color::Blue));
}

#[test]
fn degenerate_dimension_is_reported() {
    let dim = RotatedDimension {
        definition_point_1: pt(0, 0, 0),
        definition_point_2: pt(10, 5, 0),
        definition_point_3: pt(-5, 0, 0),
        rotation_angle: Rotation::none(),
    };
    let d = drawing(vec![Entity::RotatedDimension(dim), line(pt(0, 0, 0), pt(1, 0, 0))], vec![]);
    let (prims, diags) = flatten(&d, &Transform::identity()).unwrap();
    assert_eq!(prims.len(), 1);
    assert_eq!(diags.len(), 1);
    assert!(matches!(diags[0], Diagnostic::DegenerateDimension));
}

#[test]
fn degenerate_viewport_is_fatal() {
    let mut d = drawing(vec![], vec![]);
    d.header = header(pt(0, 0, 0), pt(0, 10, 0));
    match convert(&d) {
        Err(e) => assert_eq!(e, ConvertError::Viewport(ViewportError::Degenerate)),
        Ok(_) => panic!("zero width must fail"),
    }
    d.header = header(pt(0, 10, 0), pt(5, 3, 0));
    assert!(matches!(convert(&d), Err(ConvertError::Viewport(ViewportError::Degenerate))));
    d.header = header(pt(0, 0, 0), pt(COORD_LIMIT + 1, 3, 0));
    assert!(matches!(convert(&d), Err(ConvertError::Viewport(ViewportError::OutOfRange))));
}

#[test]
fn flip_uses_both_limits() {
    let mut d = drawing(vec![line(pt(0, 3, 0), pt(1, 7, 0))], vec![]);
    d.header = header(pt(-2, 1, 0), pt(8, 11, 0));
    let c = convert(&d).unwrap();
    assert_eq!((c.viewport.origin_x, c.viewport.origin_y, c.viewport.width, c.viewport.height), (-2, 1, 10, 10));
    // y' = 2 * 1 + 10 - y
    assert_eq!(points(&c.primitives[0]), vec![(0, 9), (1, 5)]);
}

#[test]
fn coordinates_out_of_range_are_reported() {
    let d = drawing(vec![line(pt(COORD_LIMIT, 0, 0), pt(0, 0, 0))], vec![]);
    let (prims, diags) = flatten(&d, &Transform::placement(dxf2svg::transform::Placement {
        scale_x: 2 * UNIT,
        scale_y: UNIT,
        scale_z: UNIT,
        rotation: Rotation::none(),
        offset: pt(0, 0, 0),
    }))
    .unwrap();
    assert!(prims.is_empty());
    assert!(matches!(diags[0], Diagnostic::OutOfRange));
}
