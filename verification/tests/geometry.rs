use roadsim::geom::{isqrt, perp_offset, ControlPoint, Vec2, HALF_WIDTH};
use roadsim::mesh::RoadMesh;
use roadsim::network::{Backbone, BuildError, CrossSection, Location, Road, RoadNetwork};

fn cp(x: i64, y: i64, dx: i64, dy: i64) -> ControlPoint {
    ControlPoint { position: Vec2 { x, y }, direction: Vec2 { x: dx, y: dy } }
}

fn loc(name: &str) -> Location {
    Location { name: name.as_bytes().to_vec() }
}

/// A small valid backbone: a straight road A -> B and a connector
/// (A, B, C) that turns off toward C at the junction B.
fn demo_backbone() -> Backbone {
    Backbone {
        locations: vec![loc("A"), loc("B"), loc("C")],
        roads: vec![Road {
            from: 0,
            to: 1,
            points: vec![
                cp(200_000, 500_000, 10_000, 0),
                cp(300_000, 500_000, 10_000, 0),
                cp(400_000, 500_000, 10_000, 0),
            ],
        }],
        cross_sections: vec![CrossSection {
            from: 0,
            across: 1,
            to: 2,
            points: vec![
                cp(400_000, 500_000, 10_000, 0),
                cp(500_000, 600_000, 0, 10_000),
            ],
        }],
    }
}

#[test]
fn isqrt_exact_values() {
    assert_eq!(isqrt(0), 0);
    assert_eq!(isqrt(1), 1);
    assert_eq!(isqrt(3), 1);
    assert_eq!(isqrt(4), 2);
    assert_eq!(isqrt(999_999), 999);
    assert_eq!(isqrt(1_000_000), 1000);
    assert_eq!(isqrt(4_000_000_000_000_000_000), 2_000_000_000);
}

#[test]
fn perp_offset_of_axis_tangents() {
    assert_eq!(
        perp_offset(Vec2 { x: 1000, y: 0 }),
        Vec2 { x: 0, y: HALF_WIDTH }
    );
    assert_eq!(
        perp_offset(Vec2 { x: 0, y: 1000 }),
        Vec2 { x: -HALF_WIDTH, y: 0 }
    );
    assert_eq!(
        perp_offset(Vec2 { x: -1000, y: 0 }),
        Vec2 { x: 0, y: -HALF_WIDTH }
    );
}

#[test]
fn boundary_chains_are_continuous() {
    let n = RoadNetwork::build(demo_backbone()).unwrap();
    for g in n.lanes.iter().chain(n.cross_geometries.iter()) {
        for chain in [&g.left, &g.right, &g.center] {
            for i in 0..chain.len() - 1 {
                assert_eq!(chain[i].p3, chain[i + 1].p0);
            }
        }
        for i in 0..g.center_tess.len() - 1 {
            let a = g.center_tess[i];
            let b = g.center_tess[i + 1];
            assert!((a.x - b.x).abs() < 20_000 && (a.y - b.y).abs() < 20_000);
        }
    }
}

#[test]
fn boundary_chains_are_symmetric() {
    let n = RoadNetwork::build(demo_backbone()).unwrap();
    let lane = &n.lanes[0];
    assert_eq!(lane.left.len(), lane.right.len());
    assert_eq!(lane.left.len(), 2);
    let cross = &n.cross_geometries[0];
    assert_eq!(cross.left.len(), cross.right.len());
    assert_eq!(cross.left.len(), 1);
}

#[test]
fn straight_lane_boundaries_sit_half_width_apart() {
    let n = RoadNetwork::build(demo_backbone()).unwrap();
    let lane = &n.lanes[0];
    // The road is straight along +x, so left is up, right is down.
    assert_eq!(lane.left[0].p0, Vec2 { x: 200_000, y: 510_000 });
    assert_eq!(lane.right[0].p0, Vec2 { x: 200_000, y: 490_000 });
    assert_eq!(lane.center[0].p0, Vec2 { x: 200_000, y: 500_000 });
    assert_eq!(lane.center[1].p3, Vec2 { x: 400_000, y: 500_000 });
}

#[test]
fn build_is_idempotent() {
    let n1 = RoadNetwork::build(demo_backbone()).unwrap();
    let n2 = RoadNetwork::build(demo_backbone()).unwrap();
    assert_eq!(n1.lanes.len(), n2.lanes.len());
    for (a, b) in n1.lanes.iter().zip(n2.lanes.iter()) {
        assert_eq!(a.left, b.left);
        assert_eq!(a.right, b.right);
        assert_eq!(a.center, b.center);
        assert_eq!(a.center_tess, b.center_tess);
    }
    let m1 = RoadMesh::build(&n1);
    let m2 = RoadMesh::build(&n2);
    assert_eq!(m1.vertices, m2.vertices);
    assert_eq!(m1.triangles, m2.triangles);
    assert_eq!(m1.borders, m2.borders);
    assert_eq!(m1.right_borders, m2.right_borders);
}

#[test]
fn mesh_counts_and_index_validity() {
    let n = RoadNetwork::build(demo_backbone()).unwrap();
    let m = RoadMesh::build(&n);
    // Lane: 2 beziers -> 32 steps; cross: 1 bezier -> 16 steps.
    assert_eq!(m.vertices.len(), 2 * (32 + 1) + 2 * (16 + 1));
    assert_eq!(m.triangles.len(), 6 * 32 + 6 * 16);
    assert_eq!(m.borders.len(), (4 + 4 * 32) + (4 + 4 * 16));
    assert_eq!(m.right_borders.len(), 2);
    assert_eq!(m.right_borders[0].len(), 2 * 32);
    for i in m.triangles.iter().chain(m.borders.iter()) {
        assert!(*i < m.vertices.len());
    }
    for rb in m.right_borders.iter() {
        for i in rb.iter() {
            assert!(*i < m.vertices.len());
        }
    }
    // The first quad of the first lane, as two triangles.
    assert_eq!(&m.triangles[0..6], &[0, 1, 2, 2, 1, 3]);
}

#[test]
fn validate_rejects_duplicate_location_names() {
    let mut b = demo_backbone();
    b.locations[2] = loc("A");
    assert_eq!(b.validate(), Err(BuildError::DuplicateLocation));
    assert!(RoadNetwork::build(b).is_err());
}

#[test]
fn validate_rejects_unknown_location() {
    let mut b = demo_backbone();
    b.roads[0].to = 9;
    assert_eq!(b.validate(), Err(BuildError::UnknownLocation));
}

#[test]
fn validate_rejects_single_control_point() {
    let mut b = demo_backbone();
    b.roads[0].points.truncate(1);
    assert_eq!(b.validate(), Err(BuildError::TooFewControlPoints));
}

#[test]
fn validate_rejects_zero_tangent() {
    let mut b = demo_backbone();
    b.cross_sections[0].points[1] = cp(500_000, 600_000, 0, 0);
    assert_eq!(b.validate(), Err(BuildError::BadControlPoint));
}

#[test]
fn validate_rejects_out_of_range_position() {
    let mut b = demo_backbone();
    b.roads[0].points[0] = cp(10, 10, 10_000, 0);
    assert_eq!(b.validate(), Err(BuildError::BadControlPoint));
}

#[test]
fn validate_accepts_demo_backbone() {
    assert_eq!(demo_backbone().validate(), Ok(()));
}
