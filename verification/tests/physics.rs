use gravity_sim::entities::{Body, CelestialObject, Hsl, Spaceship};
use gravity_sim::fixnum::{Fx, Vec2, SCALE};
use gravity_sim::sim::step;

fn fx(v: i128) -> Fx {
    Fx::from_int(v)
}

fn to_f(x: Fx) -> f64 {
    (x.raw as f64) / 18446744073709551616.0
}

fn dt60() -> Fx {
    Fx::from_ratio(1, 60)
}

fn obj(pos: Vec2, vel: Vec2, mass: i128) -> CelestialObject {
    CelestialObject {
        body: Body::new(pos, vel, mass),
        rad: fx(1),
        color: Hsl { hue_milli: 0, sat_milli: 0, light_milli: 0 },
    }
}

fn far_probe() -> Body {
    Body::new(Vec2::new(fx(500_000), fx(0)), Vec2::zero(), 1)
}

fn momentum(bodies: &[CelestialObject]) -> (i128, i128) {
    let mut px: i128 = 0;
    let mut py: i128 = 0;
    for b in bodies {
        px += b.body.mass * b.body.vel.x.raw;
        py += b.body.mass * b.body.vel.y.raw;
    }
    (px, py)
}

fn energy(bodies: &[CelestialObject]) -> f64 {
    let mut e: f64 = 0.0;
    for b in bodies {
        let vx = to_f(b.body.vel.x);
        let vy = to_f(b.body.vel.y);
        e += 0.5 * (b.body.mass as f64) * (vx * vx + vy * vy);
    }
    for i in 0..bodies.len() {
        for j in i + 1..bodies.len() {
            let dx = to_f(bodies[j].body.pos.x) - to_f(bodies[i].body.pos.x);
            let dy = to_f(bodies[j].body.pos.y) - to_f(bodies[i].body.pos.y);
            let r = (dx * dx + dy * dy).sqrt();
            e -= (bodies[i].body.mass as f64) * (bodies[j].body.mass as f64) / r;
        }
    }
    e
}

#[test]
fn single_pair_analytic() {
    // Two bodies of mass 1e6 and 1 at rest, 200 apart: after one step of
    // 1/60 s, each velocity magnitude is G * m_other / d^2 * dt.
    let mut bodies = vec![
        obj(Vec2::zero(), Vec2::zero(), 1_000_000),
        obj(Vec2::new(fx(200), fx(0)), Vec2::zero(), 1),
    ];
    let mut probe = far_probe();
    step(&mut bodies, &mut probe, dt60());
    let v1 = to_f(bodies[0].body.vel.x).abs();
    let v2 = to_f(bodies[1].body.vel.x).abs();
    let expect2 = 1_000_000.0 / (200.0 * 200.0) / 60.0;
    let expect1 = 1.0 / (200.0 * 200.0) / 60.0;
    assert!((v2 - expect2).abs() / expect2 < 1e-4, "v2 {} vs {}", v2, expect2);
    assert!((v1 - expect1).abs() / expect1 < 1e-4, "v1 {} vs {}", v1, expect1);
    assert!((v2 / v1 - 1_000_000.0).abs() < 1.0);
    // the pull is along the pair's axis
    assert_eq!(bodies[0].body.vel.y.raw, 0);
    assert_eq!(bodies[1].body.vel.y.raw, 0);
    // and toward the other body
    assert!(bodies[0].body.vel.x.raw > 0);
    assert!(bodies[1].body.vel.x.raw < 0);
}

#[test]
fn momentum_conserved_exactly() {
    // A closed two-body system (the probe is far away and pulls nothing):
    // the registry's total momentum is the same exact integer after every
    // step.
    let mut bodies = vec![
        obj(Vec2::new(fx(-100), fx(30)), Vec2::new(fx(1), fx(2)), 800_000),
        obj(Vec2::new(fx(150), fx(-40)), Vec2::new(fx(-3), fx(1)), 2_500),
    ];
    let mut probe = far_probe();
    let before = momentum(&bodies);
    for _ in 0..200 {
        step(&mut bodies, &mut probe, dt60());
        assert_eq!(momentum(&bodies), before);
    }
}

#[test]
fn momentum_conserved_many_bodies() {
    let mut bodies = vec![
        obj(Vec2::zero(), Vec2::zero(), 1_000_000),
        obj(Vec2::new(fx(300), fx(0)), Vec2::new(fx(0), fx(57)), 10_000),
        obj(Vec2::new(fx(-500), fx(120)), Vec2::new(fx(10), fx(-40)), 33_000),
        obj(Vec2::new(fx(40), fx(-800)), Vec2::new(fx(-35), fx(0)), 5),
    ];
    let mut probe = far_probe();
    let before = momentum(&bodies);
    for _ in 0..50 {
        step(&mut bodies, &mut probe, dt60());
    }
    assert_eq!(momentum(&bodies), before);
}

#[test]
fn energy_drift_bounded() {
    // Symplectic Euler: over 10,000 steps of a bound two-body system the
    // mechanical energy drifts, but stays within a small tolerance.
    let m1: i128 = 1_000_000;
    let m2: i128 = 1_000;
    let star = obj(Vec2::zero(), Vec2::zero(), m1);
    let planet = CelestialObject {
        body: Body::new_in_orbit(&star.body, Vec2::new(fx(400), fx(0)), true, m2),
        rad: fx(1),
        color: Hsl { hue_milli: 0, sat_milli: 0, light_milli: 0 },
    };
    let mut bodies = vec![star, planet];
    let mut probe = far_probe();
    let e0 = energy(&bodies);
    let mut worst: f64 = 0.0;
    for _ in 0..10_000 {
        step(&mut bodies, &mut probe, dt60());
        let drift = ((energy(&bodies) - e0) / e0).abs();
        if drift > worst {
            worst = drift;
        }
    }
    assert!(worst < 0.02, "energy drift {}", worst);
}

#[test]
fn pairwise_impulses_opposite() {
    // Newton's third law at one step: mass-weighted velocity changes of a
    // pair cancel exactly, in integers.
    let a = Body::new(Vec2::new(fx(-37), fx(12)), Vec2::zero(), 123_456);
    let b = Body::new(Vec2::new(fx(101), fx(-55)), Vec2::zero(), 789);
    let mut a2 = a;
    a2.apply_gravity(&b, dt60());
    let mut b2 = b;
    b2.apply_gravity(&a, dt60());
    let dvax = a2.vel.x.raw - a.vel.x.raw;
    let dvay = a2.vel.y.raw - a.vel.y.raw;
    let dvbx = b2.vel.x.raw - b.vel.x.raw;
    let dvby = b2.vel.y.raw - b.vel.y.raw;
    assert_eq!(a.mass * dvax, -(b.mass * dvbx));
    assert_eq!(a.mass * dvay, -(b.mass * dvby));
    assert!(dvax != 0 || dvay != 0);
}

#[test]
fn circular_orbit_stays_circular() {
    // A craft on the circular-orbit initialization around a stationary
    // star keeps its radius within 2% over a full revolution.
    let star = obj(Vec2::zero(), Vec2::zero(), 1_000_000);
    let mut bodies = vec![star];
    let mut ship = Spaceship::new_in_orbit(&bodies[0], Vec2::new(fx(250), fx(0)), true, 1);
    // period = 2*pi*sqrt(r^3/mu) = 2*pi*sqrt(250^3/1e6) ~ 24.8 s ~ 1490 steps
    for _ in 0..1600 {
        step(&mut bodies, &mut ship.body, dt60());
        ship.update(dt60());
        let x = to_f(ship.body.pos.x);
        let y = to_f(ship.body.pos.y);
        let r = (x * x + y * y).sqrt();
        assert!((r - 250.0).abs() / 250.0 < 0.02, "radius {}", r);
    }
    // the star, alone in the registry, has not moved
    assert_eq!(bodies[0].body.pos.x.raw, 0);
    assert_eq!(bodies[0].body.pos.y.raw, 0);
}

#[test]
fn thrust_adds_velocity_exactly() {
    let star = obj(Vec2::zero(), Vec2::zero(), 1_000_000);
    let mut ship = Spaceship::new_in_orbit(&star, Vec2::new(fx(250), fx(0)), true, 1);
    let v0 = ship.body.vel;
    let dir = Vec2::new(fx(1), fx(0));
    ship.apply_thrust(dir, dt60());
    // dv = 10 * dt * dir, computed on narrowed values
    let hdt = dt60().raw / 0x1_0000_0000;
    let expected = 10 * hdt * (SCALE / 0x1_0000_0000);
    assert_eq!(ship.body.vel.x.raw - v0.x.raw, expected);
    assert_eq!(ship.body.vel.y.raw, v0.y.raw);
}

#[test]
fn player_does_not_pull_bodies() {
    let mut bodies = vec![obj(Vec2::zero(), Vec2::zero(), 1_000_000)];
    let mut probe = Body::new(Vec2::new(fx(250), fx(0)), Vec2::zero(), 1_000);
    step(&mut bodies, &mut probe, dt60());
    // the registry body felt nothing; the probe felt the body
    assert_eq!(bodies[0].body.vel.x.raw, 0);
    assert_eq!(bodies[0].body.vel.y.raw, 0);
    assert!(probe.vel.x.raw < 0);
}
