use gravity_sim::entities::{Body, CelestialObject, Hsl, Spaceship};
use gravity_sim::fixnum::{Fx, Vec2, SCALE};
use gravity_sim::sim::{predict_orbit, step, Orbit};

fn fx(v: i128) -> Fx {
    Fx::from_int(v)
}

fn to_f(x: Fx) -> f64 {
    (x.raw as f64) / 18446744073709551616.0
}

fn dt60() -> Fx {
    Fx::from_ratio(1, 60)
}

fn star(mass: i128) -> CelestialObject {
    CelestialObject {
        body: Body::new(Vec2::zero(), Vec2::zero(), mass),
        rad: fx(100),
        color: Hsl { hue_milli: 70_000, sat_milli: 100_000, light_milli: 90_000 },
    }
}

#[test]
fn circular_round_trip_exact() {
    // Mass chosen so that the circular speed at r0 = 250 is the integer 64
    // (64^2 * 250 = 1_024_000): the predictor reports an eccentricity of
    // exactly zero and a semi-latus rectum of exactly r0.
    let bodies = vec![star(1_024_000)];
    let player = Body::new(Vec2::new(fx(250), fx(0)), Vec2::new(fx(0), fx(64)), 1);
    let orbit = predict_orbit(&bodies, &player);
    assert_eq!(orbit.e.x.raw, 0);
    assert_eq!(orbit.e.y.raw, 0);
    assert_eq!(orbit.p.raw, 250 * SCALE);
    assert_eq!(orbit.body_center.x.raw, 0);
    assert_eq!(orbit.body_center.y.raw, 0);
}

#[test]
fn circular_round_trip_approx() {
    // The generic circular state: mass 1e6 at the origin, player at r0
    // with the circular-orbit velocity; |e| is nearly zero and p nearly r0.
    let bodies = vec![star(1_000_000)];
    let ship = Spaceship::new_in_orbit(&bodies[0], Vec2::new(fx(250), fx(0)), true, 1);
    let orbit = predict_orbit(&bodies, &ship.body);
    let en = (to_f(orbit.e.x).powi(2) + to_f(orbit.e.y).powi(2)).sqrt();
    assert!(en < 1e-3, "eccentricity {}", en);
    assert!((to_f(orbit.p) - 250.0).abs() < 0.1, "p {}", to_f(orbit.p));
}

#[test]
fn radial_trajectory_degenerate() {
    // Purely radial motion: zero angular momentum, so the semi-latus
    // rectum comes back as exactly zero.
    let bodies = vec![star(1_000_000)];
    let player = Body::new(Vec2::new(fx(300), fx(0)), Vec2::new(fx(-5), fx(0)), 1);
    let orbit = predict_orbit(&bodies, &player);
    assert_eq!(orbit.p.raw, 0);
}

#[test]
fn hyperbolic_trajectory_rejected() {
    // v = 200 at r = 250 around mu = 1e6 is far above escape speed: no
    // body yields an elliptical candidate and the placeholder comes back.
    let bodies = vec![star(1_000_000)];
    let player = Body::new(Vec2::new(fx(250), fx(0)), Vec2::new(fx(0), fx(200)), 1);
    let orbit = predict_orbit(&bodies, &player);
    assert_eq!(orbit.body_center.x.raw, 0);
    assert_eq!(orbit.e.x.raw, SCALE);
    assert_eq!(orbit.e.y.raw, 0);
    assert_eq!(orbit.p.raw, 0);
    assert!(orbit.ellipse_axes().is_none());
}

#[test]
fn nearest_elliptical_body_wins() {
    // Two stars; the player's state is elliptical about both; the nearer
    // one is the focus of the returned conic.
    let mut far = star(1_000_000);
    far.body.pos = Vec2::new(fx(10_000), fx(0));
    let near = star(1_000_000);
    let bodies = vec![far, near];
    let ship = Spaceship::new_in_orbit(&bodies[1], Vec2::new(fx(250), fx(0)), true, 1);
    let orbit = predict_orbit(&bodies, &ship.body);
    assert_eq!(orbit.body_center.x.raw, 0);
}

#[test]
fn scenario_one_step_circular() {
    // Registry = [star(1e6, origin)], player at (250, 0) with the
    // clockwise circular-orbit velocity. After one step the player has
    // moved by about vel * dt and the predicted orbit is still circular.
    let mut bodies = vec![star(1_000_000)];
    let mut ship = Spaceship::new_in_orbit(&bodies[0], Vec2::new(fx(250), fx(0)), true, 1);
    let v0y = to_f(ship.body.vel.y);
    assert!((v0y.abs() - 63.2455).abs() < 1e-3);
    step(&mut bodies, &mut ship.body, dt60());
    let orbit = predict_orbit(&bodies, &ship.body);
    ship.update(dt60());
    let expected_y = v0y / 60.0;
    assert!((to_f(ship.body.pos.y) - expected_y).abs() < 1e-3);
    assert!((to_f(ship.body.pos.x) - 250.0).abs() < 0.01);
    let en = (to_f(orbit.e.x).powi(2) + to_f(orbit.e.y).powi(2)).sqrt();
    assert!(en < 0.01, "eccentricity after one step {}", en);
}

#[test]
fn ellipse_axes_circular_exact() {
    let o = Orbit::new(Vec2::zero(), Vec2::zero(), fx(100));
    let (a, b) = o.ellipse_axes().unwrap();
    assert_eq!(a.raw, 100 * SCALE);
    assert_eq!(b.raw, 100 * SCALE);
}

#[test]
fn ellipse_axes_half_eccentric() {
    // |e| = 1/2, p = 120: a = p / (1 - 1/4) = 160, b = a * sqrt(3)/2.
    let e = Vec2::new(Fx { raw: SCALE / 2 }, fx(0));
    let o = Orbit::new(Vec2::zero(), e, fx(120));
    let (a, b) = o.ellipse_axes().unwrap();
    assert_eq!(a.raw, 160 * SCALE);
    let bf = to_f(b);
    assert!((bf - 160.0 * 0.75f64.sqrt()).abs() < 1e-6, "b {}", bf);
}

#[test]
fn ellipse_axes_unbound_none() {
    let e = Vec2::new(fx(1), fx(0));
    let o = Orbit::new(Vec2::zero(), e, fx(120));
    assert!(o.ellipse_axes().is_none());
    let e2 = Vec2::new(fx(2), fx(3));
    let o2 = Orbit::new(Vec2::zero(), e2, fx(10));
    assert!(o2.ellipse_axes().is_none());
}

#[test]
fn ellipse_center_offset() {
    // Focus at (10, 20), e = (1/2, 0), p = 120: the centre sits a linear
    // eccentricity c = sqrt(a^2 - b^2) = 80 against the e direction.
    let e = Vec2::new(Fx { raw: SCALE / 2 }, fx(0));
    let o = Orbit::new(Vec2::new(fx(10), fx(20)), e, fx(120));
    let (a, b) = o.ellipse_axes().unwrap();
    let c = o.ellipse_center(a, b);
    assert!((to_f(c.x) - (10.0 - 80.0)).abs() < 1e-3, "cx {}", to_f(c.x));
    assert!((to_f(c.y) - 20.0).abs() < 1e-6, "cy {}", to_f(c.y));
}

#[test]
fn ellipse_center_circular_is_focus() {
    let o = Orbit::new(Vec2::new(fx(-7), fx(3)), Vec2::zero(), fx(50));
    let (a, b) = o.ellipse_axes().unwrap();
    let c = o.ellipse_center(a, b);
    assert_eq!(c.x.raw, -7 * SCALE);
    assert_eq!(c.y.raw, 3 * SCALE);
}

#[test]
fn default_orbit_draws_nothing() {
    let o = Orbit::default();
    assert!(o.ellipse_axes().is_none());
    assert_eq!(o.e.x.raw, SCALE);
    assert_eq!(o.p.raw, 0);
}

#[test]
fn planet_in_orbit_circular_speed() {
    // new_planet_in_orbit wires a body through the circular-orbit
    // initialization and keeps the presentation fields.
    let sun = star(1_000_000);
    let color = Hsl { hue_milli: 120_000, sat_milli: 68_000, light_milli: 40_000 };
    let p = CelestialObject::new_planet_in_orbit(
        &sun,
        Vec2::new(fx(0), fx(640)),
        false,
        fx(12),
        40_000,
        color,
    );
    assert_eq!(p.rad.raw, 12 * SCALE);
    assert_eq!(p.color, color);
    assert_eq!(p.body.mass, 40_000);
    let vx = to_f(p.body.vel.x);
    let vy = to_f(p.body.vel.y);
    let speed = (vx * vx + vy * vy).sqrt();
    let expect = (1_000_000.0f64 / 640.0).sqrt();
    assert!((speed - expect).abs() / expect < 1e-4, "speed {} vs {}", speed, expect);
    // velocity is perpendicular to the radial direction (here the y axis)
    assert!(vy.abs() < 1e-3);
    assert!(vx.abs() > 1.0);
}

#[test]
fn empty_registry_predicts_nothing() {
    let bodies: Vec<CelestialObject> = vec![];
    let player = Body::new(Vec2::new(fx(250), fx(0)), Vec2::new(fx(0), fx(10)), 1);
    let orbit = predict_orbit(&bodies, &player);
    assert_eq!(orbit.e.x.raw, SCALE);
    assert_eq!(orbit.p.raw, 0);
    assert!(orbit.ellipse_axes().is_none());
}

#[test]
fn coincident_player_rejected() {
    // A player standing exactly on a body yields no candidate from it.
    let bodies = vec![star(1_000_000)];
    let player = Body::new(Vec2::zero(), Vec2::new(fx(0), fx(10)), 1);
    let orbit = predict_orbit(&bodies, &player);
    assert_eq!(orbit.e.x.raw, SCALE);
    assert_eq!(orbit.p.raw, 0);
}

#[test]
fn empty_registry_step_moves_nothing() {
    let mut bodies: Vec<CelestialObject> = vec![];
    let mut probe = Body::new(Vec2::new(fx(5), fx(6)), Vec2::new(fx(1), fx(2)), 1);
    step(&mut bodies, &mut probe, dt60());
    // no bodies: the probe feels nothing, and step never moves the probe
    assert_eq!(probe.pos.x.raw, 5 * SCALE);
    assert_eq!(probe.vel.x.raw, SCALE);
    assert!(bodies.is_empty());
}
