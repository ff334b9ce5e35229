use gravity_sim::entities::{check_body_fits, check_pair_sep};
use gravity_sim::fixnum::{Fx, SCALE};
use gravity_sim::sim::step;
use gravity_sim::star_system_gen::{random_gas_giant_planet, random_rocky_planet, random_star,
    random_system};
use rand::rngs::StdRng;
use rand::SeedableRng;

fn to_f(x: Fx) -> f64 {
    (x.raw as f64) / 18446744073709551616.0
}

#[test]
fn star_in_ranges() {
    for seed in 0..20u64 {
        let mut rng = StdRng::seed_from_u64(seed);
        let sun = random_star(&mut rng);
        let rad = to_f(sun.rad);
        assert!((100.0..200.0).contains(&rad), "radius {}", rad);
        // mass = (2/3) * 2 * pi * r^3 * density with density in [0.01, 0.05)
        let m = sun.body.mass as f64;
        let lo = 2.0 / 3.0 * std::f64::consts::TAU * 100.0f64.powi(3) * 0.01;
        let hi = 2.0 / 3.0 * std::f64::consts::TAU * 200.0f64.powi(3) * 0.05;
        assert!(m >= lo * 0.99 && m <= hi * 1.01, "mass {}", m);
        // the stylized formula holds for the returned radius, for some
        // density in the range
        let vol = 2.0 / 3.0 * std::f64::consts::TAU * rad.powi(3);
        let implied_density = m / vol;
        assert!((0.0099..0.0501).contains(&implied_density), "density {}", implied_density);
        assert_eq!(sun.body.pos.x.raw, 0);
        assert_eq!(sun.body.pos.y.raw, 0);
        assert_eq!(sun.body.vel.x.raw, 0);
        assert_eq!(sun.body.vel.y.raw, 0);
        assert_eq!(sun.color.hue_milli, 70_000);
        assert_eq!(sun.color.sat_milli, 100_000);
        assert_eq!(sun.color.light_milli, 90_000);
    }
}

#[test]
fn rocky_planet_in_ranges() {
    let mut rng = StdRng::seed_from_u64(7);
    let sun = random_star(&mut rng);
    for _ in 0..20 {
        let p = random_rocky_planet(&mut rng, &sun);
        let dx = to_f(p.body.pos.x);
        let dy = to_f(p.body.pos.y);
        let dist = (dx * dx + dy * dy).sqrt();
        assert!((499.0..2001.0).contains(&dist), "orbit {}", dist);
        let rad = to_f(p.rad);
        assert!((5.0..20.0).contains(&rad), "radius {}", rad);
        assert!(p.color.hue_milli < 150_000);
        assert_eq!(p.color.sat_milli, 68_000);
        assert_eq!(p.color.light_milli, 40_000);
        // circular-orbit speed: sqrt(G * M / dist)
        let vx = to_f(p.body.vel.x);
        let vy = to_f(p.body.vel.y);
        let speed = (vx * vx + vy * vy).sqrt();
        let expect = ((sun.body.mass as f64) / dist).sqrt();
        assert!((speed - expect).abs() / expect < 0.01, "speed {} vs {}", speed, expect);
        // and perpendicular to the radial direction
        let dot = (dx * vx + dy * vy) / (dist * speed);
        assert!(dot.abs() < 0.01, "radial component {}", dot);
    }
}

#[test]
fn gas_giant_in_ranges() {
    let mut rng = StdRng::seed_from_u64(11);
    let sun = random_star(&mut rng);
    for _ in 0..20 {
        let p = random_gas_giant_planet(&mut rng, &sun);
        let dx = to_f(p.body.pos.x);
        let dy = to_f(p.body.pos.y);
        let dist = (dx * dx + dy * dy).sqrt();
        assert!((1999.0..4001.0).contains(&dist), "orbit {}", dist);
        let rad = to_f(p.rad);
        assert!((20.0..50.0).contains(&rad), "radius {}", rad);
        assert!((150_000..320_000).contains(&p.color.hue_milli));
    }
}

#[test]
fn generation_is_reproducible() {
    let mut rng1 = StdRng::seed_from_u64(42);
    let mut rng2 = StdRng::seed_from_u64(42);
    let (bodies1, ship1) = random_system(&mut rng1);
    let (bodies2, ship2) = random_system(&mut rng2);
    assert_eq!(bodies1.len(), bodies2.len());
    for (a, b) in bodies1.iter().zip(bodies2.iter()) {
        assert_eq!(a, b);
    }
    assert_eq!(ship1, ship2);
    let mut rng3 = StdRng::seed_from_u64(43);
    let (bodies3, _) = random_system(&mut rng3);
    assert!(bodies1.iter().zip(bodies3.iter()).any(|(a, b)| a != b));
}

#[test]
fn system_layout() {
    let mut rng = StdRng::seed_from_u64(3);
    let (bodies, ship) = random_system(&mut rng);
    assert_eq!(bodies.len(), 9);
    // the star is appended last, at the origin
    assert_eq!(bodies[8].body.pos.x.raw, 0);
    assert_eq!(bodies[8].body.pos.y.raw, 0);
    // four rocky then four gas giants
    for p in &bodies[0..4] {
        assert!(p.color.hue_milli < 150_000);
    }
    for p in &bodies[4..8] {
        assert!((150_000..320_000).contains(&p.color.hue_milli));
    }
    for b in &bodies {
        assert!(check_body_fits(&b.body));
    }
    assert_eq!(ship.body.mass, 1);
    assert_eq!(ship.body.pos.x.raw, 250 * SCALE);
    assert_eq!(ship.body.pos.y.raw, 0);
    assert_eq!(ship.rot.raw, 0);
}

#[test]
fn generated_system_steps() {
    // A generated scene, when its separations pass the runtime checks,
    // runs through the integrator; momentum stays exact while it does.
    let mut rng = StdRng::seed_from_u64(5);
    let (mut bodies, mut ship) = random_system(&mut rng);
    let dt = Fx::from_ratio(1, 60);
    let mut px: i128 = 0;
    let mut py: i128 = 0;
    for b in &bodies {
        px += b.body.mass * b.body.vel.x.raw;
        py += b.body.mass * b.body.vel.y.raw;
    }
    for _ in 0..120 {
        let mut ok = true;
        for i in 0..bodies.len() {
            if !check_body_fits(&bodies[i].body) {
                ok = false;
            }
            if !check_pair_sep(&ship.body, &bodies[i].body) {
                ok = false;
            }
            for j in 0..bodies.len() {
                if i != j && !check_pair_sep(&bodies[i].body, &bodies[j].body) {
                    ok = false;
                }
            }
        }
        assert!(ok, "seed 5 produced an unsteppable configuration");
        step(&mut bodies, &mut ship.body, dt);
        ship.update(dt);
    }
    let mut qx: i128 = 0;
    let mut qy: i128 = 0;
    for b in &bodies {
        qx += b.body.mass * b.body.vel.x.raw;
        qy += b.body.mass * b.body.vel.y.raw;
    }
    assert_eq!((px, py), (qx, qy));
}

#[test]
fn fixed_point_conversions() {
    assert_eq!(Fx::from_int(250).raw, 250 * SCALE);
    assert_eq!(Fx::from_milli(1500).raw, SCALE + SCALE / 2);
    assert_eq!(Fx::from_milli(1500).to_milli(), 1500);
    assert_eq!(Fx::from_ratio(1, 4).raw, SCALE / 4);
    assert_eq!(Fx::from_int(-3).to_milli(), -3000);
    assert_eq!(Fx::zero().raw, 0);
}
