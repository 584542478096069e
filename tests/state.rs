use nbody_sim::camera::camera_update;
use nbody_sim::service::{BodyState, SimulationService};
use nbody_sim::snapshot::{capture, Kinematics, SnapshotStore};
use nbody_sim::tick::{gravity_update, setup_physics, spawn_bodies, Body, BodyAttributes};
use nbody_sim::vector::{Force, TomlVector};

fn v(x: i16, y: i16) -> TomlVector {
    TomlVector { x, y }
}

fn body(mass: u16, x: i16, y: i16) -> Body {
    Body { mass, position: v(x, y), velocity: v(0, 0), force: Force { x: 0, y: 0 } }
}

#[test]
fn spawn_keeps_table_order_and_zero_force() {
    let attributes = vec![
        BodyAttributes { mass: 60, velocity: v(1, 2), position: v(500, 0) },
        BodyAttributes { mass: 0, velocity: v(-3, 0), position: v(-600, 7) },
    ];
    let bodies = spawn_bodies(&attributes);
    assert_eq!(bodies.len(), 2);
    assert_eq!(bodies[0], Body { mass: 60, position: v(500, 0), velocity: v(1, 2), force: Force { x: 0, y: 0 } });
    assert_eq!(bodies[1], Body { mass: 0, position: v(-600, 7), velocity: v(-3, 0), force: Force { x: 0, y: 0 } });
}

#[test]
fn built_in_scene() {
    let scene = setup_physics();
    assert_eq!(
        scene,
        vec![
            BodyAttributes { mass: 300, velocity: v(0, 0), position: v(-600, 0) },
            BodyAttributes { mass: 600, velocity: v(0, -25), position: v(-50, 0) },
        ]
    );
}

#[test]
fn capture_is_index_aligned() {
    let mut bodies = vec![body(60, 500, 0), body(60, -600, 0)];
    bodies[1].velocity = v(4, -4);
    let snapshot = capture(&bodies);
    assert_eq!(
        snapshot,
        vec![
            Kinematics { position: v(500, 0), velocity: v(0, 0) },
            Kinematics { position: v(-600, 0), velocity: v(4, -4) },
        ]
    );
}

#[test]
fn store_starts_empty_and_returns_whole_snapshots() {
    let mut store = SnapshotStore::new();
    assert_eq!(store.read(), vec![]);
    let first = vec![Kinematics { position: v(1, 1), velocity: v(1, 1) }; 5];
    let second = vec![Kinematics { position: v(2, 2), velocity: v(2, 2) }; 3];
    store.publish(first.clone());
    assert_eq!(store.read(), first);
    store.publish(second.clone());
    let read = store.read();
    assert_eq!(read, second);
    assert!(read.iter().all(|k| k.position == v(2, 2)));
}

#[test]
fn three_body_state_after_one_tick() {
    let attributes = vec![
        BodyAttributes { mass: 60, velocity: v(0, 0), position: v(500, 0) },
        BodyAttributes { mass: 60, velocity: v(0, 0), position: v(-600, 0) },
        BodyAttributes { mass: 60, velocity: v(0, 0), position: v(-50, 0) },
    ];
    let mut bodies = spawn_bodies(&attributes);
    gravity_update(&mut bodies, 1000);
    let mut service = SimulationService::new();
    service.publish(capture(&bodies));
    let reply = service.replies();
    assert_eq!(reply.bodies.len(), 3);
    for k in 0..3 {
        assert_eq!(reply.bodies[k], BodyState { velocity: v(0, 0), position: attributes[k].position });
    }
}

#[test]
fn repeated_requests_get_identical_replies() {
    let mut service = SimulationService::new();
    service.publish(vec![
        Kinematics { position: v(5, 6), velocity: v(7, 8) },
        Kinematics { position: v(-1, 0), velocity: v(0, -1) },
    ]);
    let a = service.replies();
    let b = service.replies();
    assert_eq!(a.bodies, b.bodies);
    assert_eq!(a.bodies[0], BodyState { velocity: v(7, 8), position: v(5, 6) });
    assert_eq!(a.bodies[1], BodyState { velocity: v(0, -1), position: v(-1, 0) });
}

#[test]
fn empty_service_replies_with_no_bodies() {
    let service = SimulationService::new();
    assert!(service.replies().bodies.is_empty());
}

#[test]
fn camera_follows_first_heaviest_body() {
    let bodies = vec![body(300, -600, 0), body(600, -50, 0), body(600, 80, 9), body(10, 1, 1)];
    assert_eq!(camera_update(&bodies), v(-50, 0));
}

#[test]
fn camera_stays_at_origin_without_mass() {
    assert_eq!(camera_update(&vec![]), v(0, 0));
    assert_eq!(camera_update(&vec![body(0, 5, 5), body(0, 6, 6)]), v(0, 0));
}
