use nbody_sim::force::{gravitational_force, FORCE_ONE};
use nbody_sim::tick::{gravity_update, net_forces, spawn_bodies, Body, BodyAttributes};
use nbody_sim::vector::{Force, TomlVector};

fn v(x: i16, y: i16) -> TomlVector {
    TomlVector { x, y }
}

fn body(mass: u16, x: i16, y: i16) -> Body {
    Body { mass, position: v(x, y), velocity: v(0, 0), force: Force { x: 0, y: 0 } }
}

fn units(f: i128) -> f64 {
    f as f64 / FORCE_ONE as f64
}

#[test]
fn force_points_toward_other_body() {
    // 1000 * 60 * 600 / 550^2 = 119.0082... units, directed toward -x
    let f = gravitational_force(60, 600, v(500, 0), v(-50, 0), 1000);
    assert_eq!(f, Force { x: -7_799_325, y: 0 });
    assert!((units(f.x) + 1000.0 * 60.0 * 600.0 / (550.0f64 * 550.0)).abs() < 1e-4);
}

#[test]
fn force_along_diagonal() {
    // distance 5: 1000 * 3 / 125 = 24 and 1000 * 4 / 125 = 32
    let f = gravitational_force(1, 1, v(0, 0), v(3, 4), 1000);
    assert_eq!(f, Force { x: 24 * 65536, y: 32 * 65536 });
}

#[test]
fn force_at_distance_that_is_not_whole() {
    // distance sqrt(2): 1000 / 2 / sqrt(2) = 353.553... in each axis
    let f = gravitational_force(1, 1, v(0, 0), v(1, 1), 1000);
    assert_eq!(f, Force { x: 23_170_475, y: 23_170_475 });
    let expected = 1000.0 / 2.0 / 2.0f64.sqrt();
    assert!((units(f.x) - expected).abs() < 1e-4);
}

#[test]
fn force_negative_components_truncate_toward_zero() {
    // 1000 * 60 * 60 / 1100^2 = 2.9752... units
    let f = gravitational_force(60, 60, v(500, 0), v(-600, 0), 1000);
    assert_eq!(f, Force { x: -194_983, y: 0 });
}

#[test]
fn newton_third_law_exact_negation() {
    let cases = [
        (60u16, 600u16, v(500, 0), v(-50, 0)),
        (7, 13, v(-3, 11), v(40, -9)),
        (1, 1, v(0, 0), v(3, 4)),
        (1, 1, v(0, 0), v(1, 1)),
        (40_000, 3, v(i16::MIN, 17), v(i16::MAX, -5)),
    ];
    for (m1, m2, p1, p2) in cases {
        let f12 = gravitational_force(m1, m2, p1, p2, 1000);
        let f21 = gravitational_force(m2, m1, p2, p1, 1000);
        assert_eq!(f12.x, -f21.x);
        assert_eq!(f12.y, -f21.y);
    }
}

#[test]
fn coincident_bodies_feel_no_force() {
    let f = gravitational_force(60, 600, v(12, -7), v(12, -7), 1000);
    assert_eq!(f, Force { x: 0, y: 0 });
}

#[test]
fn massless_body_feels_and_exerts_no_force() {
    let f = gravitational_force(0, 600, v(500, 0), v(-50, 0), 1000);
    assert_eq!(f, Force { x: 0, y: 0 });
    let f = gravitational_force(600, 0, v(500, 0), v(-50, 0), 1000);
    assert_eq!(f, Force { x: 0, y: 0 });
    let forces = net_forces(&vec![body(0, 500, 0), body(600, -50, 0)], 1000);
    assert_eq!(forces, vec![Force { x: 0, y: 0 }, Force { x: 0, y: 0 }]);
}

#[test]
fn massless_body_leaves_others_unchanged() {
    let with = net_forces(&vec![body(60, 500, 0), body(0, 7, 7), body(600, -50, 0)], 1000);
    let without = net_forces(&vec![body(60, 500, 0), body(600, -50, 0)], 1000);
    assert_eq!(with, vec![without[0], Force { x: 0, y: 0 }, without[1]]);
}

#[test]
fn doubling_mass_doubles_force() {
    let f = gravitational_force(60, 600, v(500, 0), v(-50, 0), 1000);
    let h = gravitational_force(120, 600, v(500, 0), v(-50, 0), 1000);
    assert_eq!(f.x, -7_799_325);
    assert_eq!(h.x, -15_598_651);
    assert!(h.x.abs() - 2 * f.x.abs() <= 1);
}

#[test]
fn doubling_distance_quarters_force() {
    let f = gravitational_force(60, 600, v(500, 0), v(-50, 0), 1000);
    let h = gravitational_force(60, 600, v(500, 0), v(-600, 0), 1000);
    assert_eq!(h.x, -1_949_831);
    assert_eq!(h.x, f.x / 4);
}

#[test]
fn doubling_a_distance_that_is_not_whole_quarters_force() {
    let f = gravitational_force(1, 1, v(0, 0), v(2, 2), 1000);
    let h = gravitational_force(1, 1, v(0, 0), v(4, 4), 1000);
    assert_eq!(f, Force { x: 5_792_618, y: 5_792_618 });
    assert_eq!(h, Force { x: 1_448_154, y: 1_448_154 });
    assert_eq!(h.x, f.x / 4);
}

#[test]
fn largest_inputs_do_not_overflow() {
    let f = gravitational_force(u16::MAX, u16::MAX, v(i16::MIN, i16::MIN), v(i16::MAX, i16::MAX), u16::MAX);
    assert_eq!(f, Force { x: 1_518_477_079, y: 1_518_477_079 });
}

#[test]
fn net_force_is_sum_over_other_bodies() {
    let bodies = vec![body(60, 500, 0), body(60, -600, 0), body(60, -50, 0), body(90, 30, 400)];
    let forces = net_forces(&bodies, 1000);
    assert_eq!(forces.len(), 4);
    for k in 0..bodies.len() {
        let mut sx: i128 = 0;
        let mut sy: i128 = 0;
        for j in 0..bodies.len() {
            if j != k {
                let f = gravitational_force(bodies[k].mass, bodies[j].mass, bodies[k].position, bodies[j].position, 1000);
                sx += f.x;
                sy += f.y;
            }
        }
        assert_eq!(forces[k], Force { x: sx, y: sy });
    }
}

#[test]
fn three_body_net_forces() {
    let bodies = vec![body(60, 500, 0), body(60, -600, 0), body(60, -50, 0)];
    let forces = net_forces(&bodies, 1000);
    // body 0: -2.975 from body 1 and -11.900 from body 2
    assert_eq!(forces, vec![Force { x: -974_915, y: 0 }, Force { x: 974_915, y: 0 }, Force { x: 0, y: 0 }]);
    assert!((units(forces[0].x) + 14.876).abs() < 1e-3);
}

#[test]
fn net_forces_of_no_bodies_and_one_body() {
    assert_eq!(net_forces(&vec![], 1000), vec![]);
    assert_eq!(net_forces(&vec![body(60, 1, 2)], 1000), vec![Force { x: 0, y: 0 }]);
}

#[test]
fn tick_replaces_previous_accumulated_force() {
    let mut bodies = vec![body(60, 500, 0), body(600, -50, 0)];
    bodies[0].force = Force { x: 1_000_000, y: -5 };
    bodies[1].velocity = v(3, 4);
    gravity_update(&mut bodies, 1000);
    assert_eq!(bodies[0].force, Force { x: -7_799_325, y: 0 });
    assert_eq!(bodies[1].force, Force { x: 7_799_325, y: 0 });
    assert_eq!(bodies[1].velocity, v(3, 4));
    assert_eq!(bodies[0].position, v(500, 0));
    gravity_update(&mut bodies, 1000);
    assert_eq!(bodies[0].force, Force { x: -7_799_325, y: 0 });
}

#[test]
fn two_body_tick_changes_lighter_velocity_more() {
    let attributes = vec![
        BodyAttributes { mass: 60, velocity: v(0, 0), position: v(500, 0) },
        BodyAttributes { mass: 600, velocity: v(0, 0), position: v(-50, 0) },
    ];
    let mut bodies = spawn_bodies(&attributes);
    gravity_update(&mut bodies, 1000);
    let dt = 0.1f64;
    let dv0 = units(bodies[0].force.x) / bodies[0].mass as f64 * dt;
    let dv1 = units(bodies[1].force.x) / bodies[1].mass as f64 * dt;
    let magnitude = 1000.0 * 60.0 * 600.0 / (550.0f64 * 550.0);
    assert!((dv0 + magnitude / 60.0 * dt).abs() < 1e-5);
    assert!((dv1 - magnitude / 600.0 * dt).abs() < 1e-5);
    assert!((dv0.abs() / dv1.abs() - 10.0).abs() < 1e-9);
}
