use sparmos::instance::{instance_slots, InstanceTemplate, LatticePoint};

fn p(x: i64, y: i64, z: i64) -> LatticePoint {
    LatticePoint { x, y, z }
}

#[test]
fn grid_x_counts_along_y_then_z() {
    let offsets = InstanceTemplate::GridX(2, 3).offsets();
    assert_eq!(
        offsets,
        vec![p(0, 0, 0), p(0, 1, 0), p(0, 0, 1), p(0, 1, 1), p(0, 0, 2), p(0, 1, 2)]
    );
}

#[test]
fn grid_y_and_grid_z_planes() {
    assert_eq!(
        InstanceTemplate::GridY(3, 1).offsets(),
        vec![p(0, 0, 0), p(1, 0, 0), p(2, 0, 0)]
    );
    assert_eq!(
        InstanceTemplate::GridZ(1, 2).offsets(),
        vec![p(0, 0, 0), p(0, 1, 0)]
    );
}

#[test]
fn cube_counts_x_then_z_then_y() {
    let offsets = InstanceTemplate::Cube(2, 2, 2).offsets();
    assert_eq!(
        offsets,
        vec![
            p(0, 0, 0),
            p(1, 0, 0),
            p(0, 0, 1),
            p(1, 0, 1),
            p(0, 1, 0),
            p(1, 1, 0),
            p(0, 1, 1),
            p(1, 1, 1),
        ]
    );
    assert!(InstanceTemplate::Cube(3, 0, 4).offsets().is_empty());
}

#[test]
fn lines_and_single() {
    assert_eq!(InstanceTemplate::LineX(3).offsets(), vec![p(0, 0, 0), p(1, 0, 0), p(2, 0, 0)]);
    assert_eq!(InstanceTemplate::LineY(2).offsets(), vec![p(0, 0, 0), p(0, 1, 0)]);
    assert_eq!(InstanceTemplate::LineZ(1).offsets(), vec![p(0, 0, 0)]);
    assert!(InstanceTemplate::LineX(0).offsets().is_empty());
    assert_eq!(InstanceTemplate::Single.offsets(), vec![p(0, 0, 0)]);
}

#[test]
fn circle_of_radius_one_is_a_plus_sign() {
    let offsets = InstanceTemplate::Circle { reach: 1, limit: 1 }.offsets();
    assert_eq!(
        offsets,
        vec![p(-1, 0, 0), p(0, 0, -1), p(0, 0, 0), p(0, 0, 1), p(1, 0, 0)]
    );
}

#[test]
fn circle_keeps_points_within_its_limit() {
    // radius 1.5: reach 2, squared radius 2.25
    let offsets = InstanceTemplate::Circle { reach: 2, limit: 2 }.offsets();
    assert_eq!(offsets.len(), 9);
    assert!(offsets.iter().all(|q| q.y == 0 && q.x * q.x + q.z * q.z <= 2));
    let mut sorted = offsets.clone();
    sorted.sort_by_key(|q| (q.x, q.z));
    assert_eq!(sorted, offsets);
}

#[test]
fn circle_with_negative_reach_is_empty() {
    assert!(InstanceTemplate::Circle { reach: -1, limit: 0 }.offsets().is_empty());
    assert_eq!(InstanceTemplate::Circle { reach: 0, limit: 0 }.offsets(), vec![p(0, 0, 0)]);
}

#[test]
fn grids_and_cubes_list_each_point_once() {
    let grid = InstanceTemplate::GridZ(3, 4).offsets();
    assert_eq!(grid.len(), 12);
    for i in 0..3 {
        for j in 0..4 {
            assert_eq!(grid.iter().filter(|q| **q == p(i, j, 0)).count(), 1);
        }
    }
    let cube = InstanceTemplate::Cube(2, 3, 4).offsets();
    assert_eq!(cube.len(), 24);
    for i in 0..2 {
        for j in 0..3 {
            for k in 0..4 {
                assert_eq!(cube.iter().filter(|q| **q == p(i, j, k)).count(), 1);
            }
        }
    }
}

#[test]
fn instances_are_numbered_in_order_and_drawn() {
    let offsets = InstanceTemplate::LineY(3).offsets();
    let slots = instance_slots(&offsets);
    assert_eq!(slots.len(), 3);
    for (k, slot) in slots.iter().enumerate() {
        assert_eq!(slot.index as usize, k);
        assert_eq!(slot.offset, offsets[k]);
        assert!(slot.should_render);
    }
    assert!(instance_slots(&Vec::new()).is_empty());
}

#[test]
fn circles_list_each_point_once() {
    let offsets = InstanceTemplate::Circle { reach: 3, limit: 9 }.offsets();
    for (i, a) in offsets.iter().enumerate() {
        assert_eq!(a.y, 0);
        assert!(a.x * a.x + a.z * a.z <= 9);
        for b in offsets.iter().skip(i + 1) {
            assert_ne!(a, b);
            assert!(a.x < b.x || (a.x == b.x && a.z < b.z));
        }
    }
    let mut expected = 0;
    for x in -3i64..=3 {
        for z in -3i64..=3 {
            if x * x + z * z <= 9 {
                expected += 1;
                assert!(offsets.contains(&p(x, 0, z)));
            }
        }
    }
    assert_eq!(offsets.len(), expected);
    assert_eq!(expected, 29);
}
