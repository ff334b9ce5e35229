//! The entities of the simulation: point-mass bodies, celestial objects
//! (a body plus its rendered radius and colour), and the player's spaceship.
//!
//! Gravity follows Newton's formula with `G = 1`: the acceleration a body
//! exerts is `G * mass / |r|^2` along the unit vector toward it, applied to
//! the velocity over a timestep `dt`. Every operation below is fixed-point,
//! and every contract states the exact integer result.

use vstd::prelude::*;
use crate::fixnum::Fx;
use crate::fixnum::Vec2;
use crate::fixnum::SCALE;
use crate::fixnum::HSCALE;
use crate::fixnum::div_tz;
use crate::fixnum::half_i;
use crate::fixnum::sqrt_i;
use crate::fixnum::div_i;
use crate::fixnum::isqrt_u;
use crate::fixnum::lemma_div_tz_bound;
use crate::fixnum::lemma_div_tz_odd;
use crate::fixnum::lemma_div_tz_ordered;
use crate::fixnum::lemma_sqrt_lt;
use crate::fixnum::lemma_sqrt_ge;
use crate::fixnum::lemma_sqrt_def;

verus! {

/// The gravitational constant of this stylized system.
pub const G: i128 = 1;

/// The fixed thrust acceleration of the player craft, world units per
/// second squared.
pub const THRUST_ACC: i128 = 10;

/// Largest mass a body may carry (2^40 stylized mass units).
pub const MASS_LIM: i128 = 0x100_0000_0000;

/// Largest magnitude of a position component: 2^20 world units, raw scale.
pub const POS_LIM: i128 = 0x10_0000_0000_0000_0000_0000;

/// Largest magnitude of a velocity component for orbit prediction and
/// well-formed bodies: 2^8 world units per second, raw scale.
pub const VEL_LIM: i128 = 0x100_0000_0000_0000_0000;

/// Largest magnitude a velocity component may reach while gravity impulses
/// accumulate (2^59 world units per second, raw scale).
pub const VACC_LIM: i128 = 0x800_0000_0000_0000_0000_0000_0000_0000;

/// Largest magnitude of a single gravity impulse on a velocity component.
pub const GRAV_DV_LIM: i128 = 0x10_0000_0000_0000_0000_0000_0000_0000;

/// Smallest allowed squared separation of an interacting pair
/// (narrowed scale; 1/64 of a world unit of distance).
pub const QMIN: i128 = 0x10_0000_0000_0000;

/// The squared norm of a raw vector, measured at the narrowed (2^32) scale;
/// the result carries the full 2^64 scale.
pub open spec fn norm2h(rx: int, ry: int) -> int {
    half_i(rx) * half_i(rx) + half_i(ry) * half_i(ry)
}

/// One component of the gravity impulse direction, intermediate step:
/// `dt * rc / |r|^2` at the narrowed scale.
pub open spec fn grav_t(rc: int, rx: int, ry: int, dt: int) -> int {
    div_tz(half_i(dt) * half_i(rc) * (HSCALE as int), norm2h(rx, ry))
}

/// One component of the per-unit-mass gravity impulse over a step:
/// `G * dt * rc / (|r|^2 * |r|)` at full scale, where `r` is the vector
/// toward the attracting body and `rc` one of its components. Multiplying
/// by the attracting mass gives the velocity change.
pub open spec fn grav_comp(rc: int, rx: int, ry: int, dt: int) -> int {
    div_tz((G as int) * grav_t(rc, rx, ry, dt) * (SCALE as int), sqrt_i(norm2h(rx, ry)))
}

/// The x component of the per-unit-mass gravity impulse.
pub open spec fn grav_ux(rx: int, ry: int, dt: int) -> int {
    grav_comp(rx, rx, ry, dt)
}

/// The y component of the per-unit-mass gravity impulse.
pub open spec fn grav_uy(rx: int, ry: int, dt: int) -> int {
    grav_comp(ry, rx, ry, dt)
}


/// The narrowed squared norm is even: negating a vector leaves it unchanged.
pub proof fn lemma_norm2h_even(x: int, y: int)
    ensures
        norm2h(-x, -y) == norm2h(x, y),
{
    crate::fixnum::lemma_div_tz_odd(x, HSCALE as int);
    crate::fixnum::lemma_div_tz_odd(y, HSCALE as int);
    assert((-half_i(x)) * (-half_i(x)) == half_i(x) * half_i(x)) by (nonlinear_arith);
    assert((-half_i(y)) * (-half_i(y)) == half_i(y) * half_i(y)) by (nonlinear_arith);
}

/// A mass the gravity arithmetic accepts.
pub open spec fn mass_ok(m: int) -> bool {
    1 <= m <= MASS_LIM as int
}

/// A position the gravity arithmetic accepts.
pub open spec fn pos_ok(p: Vec2) -> bool {
    &&& -(POS_LIM as int) <= p.x.raw <= POS_LIM as int
    &&& -(POS_LIM as int) <= p.y.raw <= POS_LIM as int
}

/// A velocity small enough for orbit prediction.
pub open spec fn vel_ok(v: Vec2) -> bool {
    &&& -(VEL_LIM as int) <= v.x.raw <= VEL_LIM as int
    &&& -(VEL_LIM as int) <= v.y.raw <= VEL_LIM as int
}

/// A velocity small enough to keep accumulating gravity impulses.
pub open spec fn vel_acc_ok(v: Vec2) -> bool {
    &&& -(VACC_LIM as int) <= v.x.raw <= VACC_LIM as int
    &&& -(VACC_LIM as int) <= v.y.raw <= VACC_LIM as int
}

/// A timestep the integrator accepts: positive, at most one second.
pub open spec fn dt_ok(dt: Fx) -> bool {
    1 <= dt.raw <= SCALE as int
}


/// The speed of a circular orbit around a parent of mass `pm` at squared
/// narrowed separation `q`: `sqrt(G * pm / |r|)`, at the narrowed scale.
pub open spec fn orbit_speed32(pm: int, q: int) -> int {
    sqrt_i(div_tz((G as int) * pm * (SCALE as int), sqrt_i(q)) * (HSCALE as int))
}

/// One component of the unit vector along `r`, at the narrowed scale.
pub open spec fn rhat32(rc: int, q: int) -> int {
    div_tz(half_i(rc) * (HSCALE as int), sqrt_i(q))
}

/// The x component of the circular-orbit velocity of a child of `parent`
/// standing at `pos`: the separation rotated a quarter turn (the sign picked
/// by `clockwise`), normalized, times the circular-orbit speed.
pub open spec fn orbit_vel_x(parent: Body, pos: Vec2, clockwise: bool) -> int {
    let rx = parent.pos.x.raw - pos.x.raw;
    let ry = parent.pos.y.raw - pos.y.raw;
    let q = norm2h(rx, ry);
    let s = orbit_speed32(parent.mass as int, q);
    if clockwise {
        s * rhat32(ry, q)
    } else {
        s * (-rhat32(ry, q))
    }
}

/// The y component of the circular-orbit velocity (see `orbit_vel_x`).
pub open spec fn orbit_vel_y(parent: Body, pos: Vec2, clockwise: bool) -> int {
    let rx = parent.pos.x.raw - pos.x.raw;
    let ry = parent.pos.y.raw - pos.y.raw;
    let q = norm2h(rx, ry);
    let s = orbit_speed32(parent.mass as int, q);
    if clockwise {
        s * (-rhat32(rx, q))
    } else {
        s * rhat32(rx, q)
    }
}

/// The preconditions under which a circular orbit of `pos` around `parent`
/// can be set up: a representable separation and a parent light enough,
/// at that distance, for the circular speed to stay representable.
pub open spec fn orbit_setup_ok(parent: Body, pos: Vec2) -> bool {
    let rx = parent.pos.x.raw - pos.x.raw;
    let ry = parent.pos.y.raw - pos.y.raw;
    &&& 1 <= parent.mass <= MASS_LIM as int
    &&& pos_ok(parent.pos)
    &&& pos_ok(pos)
    &&& norm2h(rx, ry) >= QMIN as int
    &&& parent.mass * parent.mass * (HSCALE as int) <= norm2h(rx, ry)
}

/// A point-mass participant in mutual gravity.
#[derive(Clone, Copy, PartialEq, Eq, Structural, Debug)]
pub struct Body {
    pub pos: Vec2,
    pub vel: Vec2,
    pub mass: i128,
}

/// The squared separation between two bodies at the narrowed scale.
pub open spec fn sep2h(a: Body, b: Body) -> int {
    norm2h(b.pos.x.raw - a.pos.x.raw, b.pos.y.raw - a.pos.y.raw)
}

/// A body whose state the full simulation arithmetic accepts.
pub open spec fn body_fits(b: Body) -> bool {
    &&& mass_ok(b.mass as int)
    &&& pos_ok(b.pos)
    &&& vel_ok(b.vel)
}

/// The gravity impulses a unit mass receives are odd in the separation:
/// swapping the two ends of a pair exactly negates them.
pub proof fn lemma_grav_u_odd(rx: int, ry: int, dt: int)
    requires
        norm2h(rx, ry) >= 1,
    ensures
        grav_ux(-rx, -ry, dt) == -grav_ux(rx, ry, dt),
        grav_uy(-rx, -ry, dt) == -grav_uy(rx, ry, dt),
{
    let q = norm2h(rx, ry);
    lemma_div_tz_odd(rx, HSCALE as int);
    lemma_div_tz_odd(ry, HSCALE as int);
    assert(norm2h(-rx, -ry) == q) by (nonlinear_arith)
        requires
            half_i(-rx) == -half_i(rx),
            half_i(-ry) == -half_i(ry),
            q == half_i(rx) * half_i(rx) + half_i(ry) * half_i(ry),
            norm2h(-rx, -ry) == half_i(-rx) * half_i(-rx) + half_i(-ry) * half_i(-ry);
    let d = sqrt_i(q);
    lemma_sqrt_ge(q, 1);
    lemma_grav_comp_odd(rx, rx, ry, dt);
    lemma_grav_comp_odd(ry, rx, ry, dt);
}

proof fn lemma_grav_comp_odd(rc: int, rx: int, ry: int, dt: int)
    requires
        norm2h(rx, ry) >= 1,
        norm2h(-rx, -ry) == norm2h(rx, ry),
        half_i(-rc) == -half_i(rc),
    ensures
        grav_comp(-rc, -rx, -ry, dt) == -grav_comp(rc, rx, ry, dt),
{
    let q = norm2h(rx, ry);
    let numt = half_i(dt) * half_i(rc) * (HSCALE as int);
    assert(half_i(dt) * half_i(-rc) * (HSCALE as int) == -numt) by (nonlinear_arith)
        requires
            half_i(-rc) == -half_i(rc),
            numt == half_i(dt) * half_i(rc) * (HSCALE as int);
    lemma_div_tz_odd(numt, q);
    let t = grav_t(rc, rx, ry, dt);
    assert(grav_t(-rc, -rx, -ry, dt) == -t);
    let d = sqrt_i(q);
    lemma_sqrt_ge(q, 1);
    assert((G as int) * (-t) * (SCALE as int) == -((G as int) * t * (SCALE as int)))
        by (nonlinear_arith);
    lemma_div_tz_odd((G as int) * t * (SCALE as int), d);
}

impl Body {
    /// A new body with the given state; mass must be positive.
    pub fn new(pos: Vec2, vel: Vec2, mass: i128) -> (r: Body)
        requires
            mass >= 1,
        ensures
            r.pos == pos,
            r.vel == vel,
            r.mass == mass,
    {
        Body { pos, vel, mass }
    }


    /// A body on a circular orbit around `parent`, standing at `pos`:
    /// its velocity is perpendicular to the separation (direction picked by
    /// `clockwise`) with the circular-orbit magnitude `sqrt(G * M / |r|)`.
    pub fn new_in_orbit(parent: &Body, pos: Vec2, clockwise: bool, mass: i128) -> (r: Body)
        requires
            mass >= 1,
            orbit_setup_ok(*parent, pos),
        ensures
            r.pos == pos,
            r.mass == mass,
            r.vel.x.raw == orbit_vel_x(*parent, pos, clockwise),
            r.vel.y.raw == orbit_vel_y(*parent, pos, clockwise),
            vel_ok(r.vel),
    {
        let rx: i128 = parent.pos.x.raw - pos.x.raw;
        let ry: i128 = parent.pos.y.raw - pos.y.raw;
        let hrx: i128 = div_i(rx, HSCALE);
        let hry: i128 = div_i(ry, HSCALE);
        proof {
            lemma_div_tz_bound(rx as int, HSCALE as int, 0x20_0000_0000_0000);
            lemma_div_tz_bound(ry as int, HSCALE as int, 0x20_0000_0000_0000);
            assert(hrx * hrx <= 0x400_0000_0000_0000_0000_0000_0000 && hrx * hrx >= 0)
                by (nonlinear_arith)
                requires -0x20_0000_0000_0000 <= hrx <= 0x20_0000_0000_0000;
            assert(hry * hry <= 0x400_0000_0000_0000_0000_0000_0000 && hry * hry >= 0)
                by (nonlinear_arith)
                requires -0x20_0000_0000_0000 <= hry <= 0x20_0000_0000_0000;
        }
        let q: i128 = hrx * hrx + hry * hry;
        let d: i128 = isqrt_u(q as u128) as i128;
        proof {
            assert(parent.mass * 0x1_0000 * (parent.mass * 0x1_0000) <= q as int)
                by (nonlinear_arith)
                requires
                    parent.mass * parent.mass * 0x1_0000_0000 <= q as int;
            lemma_sqrt_ge(q as int, parent.mass * 0x1_0000);
            lemma_sqrt_ge(q as int, 0x400_0000);
            let ahx: int = if hrx >= 0 { hrx as int } else { -(hrx as int) };
            let ahy: int = if hry >= 0 { hry as int } else { -(hry as int) };
            assert(ahx * ahx <= q as int && ahy * ahy <= q as int) by (nonlinear_arith)
                requires
                    q as int == (hrx as int) * (hrx as int) + (hry as int) * (hry as int),
                    ahx == (if hrx >= 0 { hrx as int } else { -(hrx as int) }),
                    ahy == (if hry >= 0 { hry as int } else { -(hry as int) });
            lemma_sqrt_ge(q as int, ahx);
            lemma_sqrt_ge(q as int, ahy);
            assert(G * parent.mass * SCALE <= 0x1_0000_0000_0000 * d
                && 0 <= G * parent.mass * SCALE) by (nonlinear_arith)
                requires
                    G == 1i128,
                    SCALE == 0x1_0000_0000_0000_0000,
                    1 <= parent.mass,
                    parent.mass * 0x1_0000 <= d;
            lemma_div_tz_bound(
                (G * parent.mass * SCALE) as int,
                d as int,
                0x1_0000_0000_0000,
            );
            lemma_div_tz_ordered(0, (G * parent.mass * SCALE) as int, d as int);
        }
        let rep: i128 = div_i(G * parent.mass * SCALE, d);
        let rep64: i128 = rep * HSCALE;
        let s32: i128 = isqrt_u(rep64 as u128) as i128;
        proof {
            assert(s32 <= 0x100_0000_0000 && s32 >= 0) by (nonlinear_arith)
                requires
                    0 <= s32 as int,
                    (s32 as int) * (s32 as int) <= rep64 as int,
                    rep64 <= 0x1_0000_0000_0000_0000_0000;
            assert(hrx * HSCALE <= d * HSCALE && -(d * HSCALE) <= hrx * HSCALE)
                by (nonlinear_arith)
                requires -d <= hrx <= d, HSCALE == 0x1_0000_0000i128;
            assert(hry * HSCALE <= d * HSCALE && -(d * HSCALE) <= hry * HSCALE)
                by (nonlinear_arith)
                requires -d <= hry <= d, HSCALE == 0x1_0000_0000i128;
            lemma_div_tz_bound((hrx * HSCALE) as int, d as int, HSCALE as int);
            lemma_div_tz_bound((hry * HSCALE) as int, d as int, HSCALE as int);
        }
        let rhx: i128 = div_i(hrx * HSCALE, d);
        let rhy: i128 = div_i(hry * HSCALE, d);
        proof {
            assert(s32 * rhx <= VEL_LIM && -VEL_LIM <= s32 * rhx
                && s32 * rhy <= VEL_LIM && -VEL_LIM <= s32 * rhy
                && s32 * (-rhx) <= VEL_LIM && -VEL_LIM <= s32 * (-rhx)
                && s32 * (-rhy) <= VEL_LIM && -VEL_LIM <= s32 * (-rhy))
                by (nonlinear_arith)
                requires
                    0 <= s32 <= 0x100_0000_0000,
                    -0x1_0000_0000 <= rhx <= 0x1_0000_0000,
                    -0x1_0000_0000 <= rhy <= 0x1_0000_0000,
                    VEL_LIM == 0x100_0000_0000_0000_0000i128;
        }
        let vel: Vec2 = if clockwise {
            Vec2 { x: Fx { raw: s32 * rhy }, y: Fx { raw: s32 * (-rhx) } }
        } else {
            Vec2 { x: Fx { raw: s32 * (-rhy) }, y: Fx { raw: s32 * rhx } }
        };
        Body::new(pos, vel, mass)
    }

    /// Receive one step of gravitational acceleration from `other`:
    /// the velocity gains `other.mass` times the per-unit-mass impulse,
    /// while the position and mass stay as they were.
    pub fn apply_gravity(&mut self, other: &Body, dt: Fx)
        requires
            mass_ok(other.mass as int),
            pos_ok(old(self).pos),
            pos_ok(other.pos),
            vel_acc_ok(old(self).vel),
            dt_ok(dt),
            sep2h(*old(self), *other) >= QMIN as int,
        ensures
            final(self).pos == old(self).pos,
            final(self).mass == old(self).mass,
            final(self).vel.x.raw == old(self).vel.x.raw + other.mass * grav_ux(
                other.pos.x.raw - old(self).pos.x.raw,
                other.pos.y.raw - old(self).pos.y.raw,
                dt.raw as int,
            ),
            final(self).vel.y.raw == old(self).vel.y.raw + other.mass * grav_uy(
                other.pos.x.raw - old(self).pos.x.raw,
                other.pos.y.raw - old(self).pos.y.raw,
                dt.raw as int,
            ),
            -(GRAV_DV_LIM as int) <= final(self).vel.x.raw - old(self).vel.x.raw
                <= GRAV_DV_LIM as int,
            -(GRAV_DV_LIM as int) <= final(self).vel.y.raw - old(self).vel.y.raw
                <= GRAV_DV_LIM as int,
    {
        let rx: i128 = other.pos.x.raw - self.pos.x.raw;
        let ry: i128 = other.pos.y.raw - self.pos.y.raw;
        let hrx: i128 = div_i(rx, HSCALE);
        let hry: i128 = div_i(ry, HSCALE);
        proof {
            lemma_div_tz_bound(rx as int, HSCALE as int, 0x20_0000_0000_0000);
            lemma_div_tz_bound(ry as int, HSCALE as int, 0x20_0000_0000_0000);
            assert(hrx * hrx <= 0x400_0000_0000_0000_0000_0000_0000 && hrx * hrx >= 0)
                by (nonlinear_arith)
                requires -0x20_0000_0000_0000 <= hrx <= 0x20_0000_0000_0000;
            assert(hry * hry <= 0x400_0000_0000_0000_0000_0000_0000 && hry * hry >= 0)
                by (nonlinear_arith)
                requires -0x20_0000_0000_0000 <= hry <= 0x20_0000_0000_0000;
        }
        let q: i128 = hrx * hrx + hry * hry;
        assert(q == norm2h(rx as int, ry as int));
        assert(q >= QMIN);
        let d: i128 = isqrt_u(q as u128) as i128;
        proof {
            assert(d as int == sqrt_i(q as int));
            lemma_sqrt_ge(q as int, 0x400_0000);
            lemma_sqrt_lt(q as int, 0x40_0000_0000_0000);
            let ahx: int = if hrx >= 0 { hrx as int } else { -(hrx as int) };
            let ahy: int = if hry >= 0 { hry as int } else { -(hry as int) };
            assert(ahx * ahx <= q as int && ahy * ahy <= q as int) by (nonlinear_arith)
                requires
                    q as int == (hrx as int) * (hrx as int) + (hry as int) * (hry as int),
                    ahx == (if hrx >= 0 { hrx as int } else { -(hrx as int) }),
                    ahy == (if hry >= 0 { hry as int } else { -(hry as int) });
            lemma_sqrt_ge(q as int, ahx);
            lemma_sqrt_ge(q as int, ahy);
        }
        let hdt: i128 = div_i(dt.raw, HSCALE);
        proof {
            lemma_div_tz_bound(dt.raw as int, HSCALE as int, HSCALE as int);
            lemma_div_tz_ordered(0, dt.raw as int, HSCALE as int);
        }
        let dvx: i128 = gravity_component(
            hrx, q, d, hdt, other.mass,
            Ghost(rx as int), Ghost(rx as int), Ghost(ry as int), Ghost(dt.raw as int),
        );
        let dvy: i128 = gravity_component(
            hry, q, d, hdt, other.mass,
            Ghost(ry as int), Ghost(rx as int), Ghost(ry as int), Ghost(dt.raw as int),
        );
        proof {
            assert(dvx == other.mass * grav_ux(rx as int, ry as int, dt.raw as int));
            assert(dvy == other.mass * grav_uy(rx as int, ry as int, dt.raw as int));
        }
        self.vel = Vec2 {
            x: Fx { raw: self.vel.x.raw + dvx },
            y: Fx { raw: self.vel.y.raw + dvy },
        };
    }

    /// Advance the position by `vel * dt` (semi-implicit Euler position
    /// update: the velocity must already hold this step's impulses).
    pub fn update(&mut self, dt: Fx)
        requires
            dt_ok(dt),
            vel_acc_ok(old(self).vel),
            -(VACC_LIM as int) <= old(self).pos.x.raw <= VACC_LIM as int,
            -(VACC_LIM as int) <= old(self).pos.y.raw <= VACC_LIM as int,
        ensures
            final(self).vel == old(self).vel,
            final(self).mass == old(self).mass,
            final(self).pos.x.raw == old(self).pos.x.raw
                + half_i(old(self).vel.x.raw as int) * half_i(dt.raw as int),
            final(self).pos.y.raw == old(self).pos.y.raw
                + half_i(old(self).vel.y.raw as int) * half_i(dt.raw as int),
    {
        let hvx: i128 = div_i(self.vel.x.raw, HSCALE);
        let hvy: i128 = div_i(self.vel.y.raw, HSCALE);
        let hdt: i128 = div_i(dt.raw, HSCALE);
        proof {
            lemma_div_tz_bound(
                self.vel.x.raw as int,
                HSCALE as int,
                0x800_0000_0000_0000_0000_0000,
            );
            lemma_div_tz_bound(
                self.vel.y.raw as int,
                HSCALE as int,
                0x800_0000_0000_0000_0000_0000,
            );
            lemma_div_tz_bound(dt.raw as int, HSCALE as int, HSCALE as int);
            lemma_div_tz_ordered(0, dt.raw as int, HSCALE as int);
            assert(hvx * hdt <= 0x800_0000_0000_0000_0000_0000 * 0x1_0000_0000
                && hvx * hdt >= -(0x800_0000_0000_0000_0000_0000 * 0x1_0000_0000))
                by (nonlinear_arith)
                requires
                    -0x800_0000_0000_0000_0000_0000 <= hvx
                        <= 0x800_0000_0000_0000_0000_0000,
                    0 <= hdt <= 0x1_0000_0000;
            assert(hvy * hdt <= 0x800_0000_0000_0000_0000_0000 * 0x1_0000_0000
                && hvy * hdt >= -(0x800_0000_0000_0000_0000_0000 * 0x1_0000_0000))
                by (nonlinear_arith)
                requires
                    -0x800_0000_0000_0000_0000_0000 <= hvy
                        <= 0x800_0000_0000_0000_0000_0000,
                    0 <= hdt <= 0x1_0000_0000;
        }
        self.pos = Vec2 {
            x: Fx { raw: self.pos.x.raw + hvx * hdt },
            y: Fx { raw: self.pos.y.raw + hvy * hdt },
        };
    }
}

/// One velocity-component impulse: `m * grav_comp(...)`, computed from the
/// already-narrowed separation data. The ghost arguments carry the raw
/// values the narrowed ones came from, so the contract can speak of the
/// impulse exactly.
fn gravity_component(
    hrc: i128,
    q: i128,
    d: i128,
    hdt: i128,
    m: i128,
    rc: Ghost<int>,
    rx: Ghost<int>,
    ry: Ghost<int>,
    dtr: Ghost<int>,
) -> (r: i128)
    requires
        half_i(rc@) == hrc as int,
        norm2h(rx@, ry@) == q as int,
        half_i(dtr@) == hdt as int,
        QMIN as int <= q as int,
        q <= 0x800_0000_0000_0000_0000_0000_0000,
        d as int == sqrt_i(q as int),
        0x400_0000 <= d < 0x40_0000_0000_0000,
        -d <= hrc <= d,
        0 <= hdt <= HSCALE,
        1 <= m <= MASS_LIM,
    ensures
        r as int == m * grav_comp(rc@, rx@, ry@, dtr@),
        -(GRAV_DV_LIM as int) <= r as int <= GRAV_DV_LIM as int,
{
    proof {
        assert(hdt * hrc <= 0x1_0000_0000 * 0x40_0000_0000_0000
            && hdt * hrc >= -(0x1_0000_0000 * 0x40_0000_0000_0000))
            by (nonlinear_arith)
            requires
                0 <= hdt <= 0x1_0000_0000,
                -0x40_0000_0000_0000 <= hrc <= 0x40_0000_0000_0000;
    }
    let numt: i128 = hdt * hrc * HSCALE;
    proof {
        lemma_sqrt_def(q as int);
        assert(numt <= 0x40_0000_0000 * q && -(0x40_0000_0000 * q) <= numt)
            by (nonlinear_arith)
            requires
                numt == hdt * hrc * 0x1_0000_0000,
                0 <= hdt <= 0x1_0000_0000,
                -d <= hrc <= d,
                0x400_0000 <= d,
                d * d <= q;
        lemma_div_tz_bound(numt as int, q as int, 0x40_0000_0000);
    }
    let t: i128 = div_i(numt, q);
    proof {
        assert(t * SCALE <= 0x1000_0000_0000_0000_0000 * d
            && -(0x1000_0000_0000_0000_0000 * d) <= t * SCALE)
            by (nonlinear_arith)
            requires
                -0x40_0000_0000 <= t <= 0x40_0000_0000,
                0x400_0000 <= d,
                SCALE == 0x1_0000_0000_0000_0000;
        lemma_div_tz_bound(t as int * SCALE as int, d as int, 0x1000_0000_0000_0000_0000);
    }
    let u: i128 = div_i(G * t * SCALE, d);
    proof {
        assert(m * u <= GRAV_DV_LIM && -GRAV_DV_LIM <= m * u) by (nonlinear_arith)
            requires
                1 <= m <= 0x100_0000_0000,
                -0x1000_0000_0000_0000_0000 <= u <= 0x1000_0000_0000_0000_0000,
                GRAV_DV_LIM == 0x10_0000_0000_0000_0000_0000_0000_0000;
    }
    m * u
}

/// A colour in an HSL-style space: hue in millidegrees, saturation and
/// lightness in milli-percent. The conversion to RGB is the renderer's
/// business; the core only carries these plain values.
#[derive(Clone, Copy, PartialEq, Eq, Structural, Debug)]
pub struct Hsl {
    pub hue_milli: u32,
    pub sat_milli: u32,
    pub light_milli: u32,
}

/// A celestial object: a point-mass body together with the radius and
/// colour the renderer draws it with.
#[derive(Clone, Copy, PartialEq, Eq, Structural, Debug)]
pub struct CelestialObject {
    pub body: Body,
    pub rad: Fx,
    pub color: Hsl,
}

impl CelestialObject {
    /// Advance the body's position by `vel * dt`; radius and colour stay.
    pub fn update(&mut self, dt: Fx)
        requires
            dt_ok(dt),
            vel_acc_ok(old(self).body.vel),
            -(VACC_LIM as int) <= old(self).body.pos.x.raw <= VACC_LIM as int,
            -(VACC_LIM as int) <= old(self).body.pos.y.raw <= VACC_LIM as int,
        ensures
            final(self).rad == old(self).rad,
            final(self).color == old(self).color,
            final(self).body.vel == old(self).body.vel,
            final(self).body.mass == old(self).body.mass,
            final(self).body.pos.x.raw == old(self).body.pos.x.raw
                + half_i(old(self).body.vel.x.raw as int) * half_i(dt.raw as int),
            final(self).body.pos.y.raw == old(self).body.pos.y.raw
                + half_i(old(self).body.vel.y.raw as int) * half_i(dt.raw as int),
    {
        self.body.update(dt);
    }

    /// A planet on a circular orbit around a star at a given location.
    pub fn new_planet_in_orbit(
        sun: &CelestialObject,
        pos: Vec2,
        clockwise: bool,
        rad: Fx,
        mass: i128,
        color: Hsl,
    ) -> (r: CelestialObject)
        requires
            mass >= 1,
            orbit_setup_ok(sun.body, pos),
        ensures
            r.rad == rad,
            r.color == color,
            r.body.pos == pos,
            r.body.mass == mass,
            r.body.vel.x.raw == orbit_vel_x(sun.body, pos, clockwise),
            r.body.vel.y.raw == orbit_vel_y(sun.body, pos, clockwise),
            vel_ok(r.body.vel),
    {
        CelestialObject { body: Body::new_in_orbit(&sun.body, pos, clockwise, mass), rad, color }
    }
}

/// The player craft: a body plus a facing angle used only for rendering
/// and for the direction of thrust.
#[derive(Clone, Copy, PartialEq, Eq, Structural, Debug)]
pub struct Spaceship {
    pub body: Body,
    pub rot: Fx,
}

/// The velocity change of one thrust application along one axis:
/// `THRUST_ACC * dt * dir_component` in fixed point.
pub open spec fn thrust_dv(dirc: int, dtr: int) -> int {
    (THRUST_ACC as int) * half_i(dtr) * half_i(dirc)
}

impl Spaceship {
    /// Advance the craft's position by `vel * dt`; the facing angle stays.
    pub fn update(&mut self, dt: Fx)
        requires
            dt_ok(dt),
            vel_acc_ok(old(self).body.vel),
            -(VACC_LIM as int) <= old(self).body.pos.x.raw <= VACC_LIM as int,
            -(VACC_LIM as int) <= old(self).body.pos.y.raw <= VACC_LIM as int,
        ensures
            final(self).rot == old(self).rot,
            final(self).body.vel == old(self).body.vel,
            final(self).body.mass == old(self).body.mass,
            final(self).body.pos.x.raw == old(self).body.pos.x.raw
                + half_i(old(self).body.vel.x.raw as int) * half_i(dt.raw as int),
            final(self).body.pos.y.raw == old(self).body.pos.y.raw
                + half_i(old(self).body.vel.y.raw as int) * half_i(dt.raw as int),
    {
        self.body.update(dt);
    }

    /// A craft on a circular orbit around a star, facing along the x axis.
    pub fn new_in_orbit(sun: &CelestialObject, pos: Vec2, clockwise: bool, mass: i128) -> (r:
        Spaceship)
        requires
            mass >= 1,
            orbit_setup_ok(sun.body, pos),
        ensures
            r.rot.raw == 0,
            r.body.pos == pos,
            r.body.mass == mass,
            r.body.vel.x.raw == orbit_vel_x(sun.body, pos, clockwise),
            r.body.vel.y.raw == orbit_vel_y(sun.body, pos, clockwise),
            vel_ok(r.body.vel),
    {
        Spaceship { body: Body::new_in_orbit(&sun.body, pos, clockwise, mass), rot: Fx { raw: 0 } }
    }

    /// Burn the engine for one step: the velocity gains the fixed thrust
    /// acceleration times `dt` along `dir` (a unit-length direction from
    /// the input layer).
    pub fn apply_thrust(&mut self, dir: Vec2, dt: Fx)
        requires
            dt_ok(dt),
            -2 * (SCALE as int) <= dir.x.raw <= 2 * (SCALE as int),
            -2 * (SCALE as int) <= dir.y.raw <= 2 * (SCALE as int),
            vel_acc_ok(old(self).body.vel),
        ensures
            final(self).rot == old(self).rot,
            final(self).body.pos == old(self).body.pos,
            final(self).body.mass == old(self).body.mass,
            final(self).body.vel.x.raw == old(self).body.vel.x.raw
                + thrust_dv(dir.x.raw as int, dt.raw as int),
            final(self).body.vel.y.raw == old(self).body.vel.y.raw
                + thrust_dv(dir.y.raw as int, dt.raw as int),
    {
        let hdt: i128 = div_i(dt.raw, HSCALE);
        let hdx: i128 = div_i(dir.x.raw, HSCALE);
        let hdy: i128 = div_i(dir.y.raw, HSCALE);
        proof {
            lemma_div_tz_bound(dt.raw as int, HSCALE as int, HSCALE as int);
            lemma_div_tz_ordered(0, dt.raw as int, HSCALE as int);
            lemma_div_tz_bound(dir.x.raw as int, HSCALE as int, 0x2_0000_0000);
            lemma_div_tz_bound(dir.y.raw as int, HSCALE as int, 0x2_0000_0000);
            assert(THRUST_ACC * hdt * hdx <= 0x100_0000_0000_0000_0000
                && -0x100_0000_0000_0000_0000 <= THRUST_ACC * hdt * hdx
                && THRUST_ACC * hdt * hdy <= 0x100_0000_0000_0000_0000
                && -0x100_0000_0000_0000_0000 <= THRUST_ACC * hdt * hdy)
                by (nonlinear_arith)
                requires
                    THRUST_ACC == 10i128,
                    0 <= hdt <= 0x1_0000_0000,
                    -0x2_0000_0000 <= hdx <= 0x2_0000_0000,
                    -0x2_0000_0000 <= hdy <= 0x2_0000_0000;
        }
        let dvx: i128 = THRUST_ACC * hdt * hdx;
        let dvy: i128 = THRUST_ACC * hdt * hdy;
        self.body.vel = Vec2 {
            x: Fx { raw: self.body.vel.x.raw + dvx },
            y: Fx { raw: self.body.vel.y.raw + dvy },
        };
    }
}

/// A single gravity impulse `m * grav_comp(..)` stays within
/// `GRAV_DV_LIM`, for any pair within the representable ranges.
pub proof fn lemma_grav_comp_bound(rc: int, rx: int, ry: int, dtr: int, m: int)
    requires
        -2 * (POS_LIM as int) <= rx <= 2 * (POS_LIM as int),
        -2 * (POS_LIM as int) <= ry <= 2 * (POS_LIM as int),
        rc == rx || rc == ry,
        norm2h(rx, ry) >= QMIN as int,
        1 <= dtr <= SCALE as int,
        1 <= m <= MASS_LIM as int,
    ensures
        -(GRAV_DV_LIM as int) <= m * grav_comp(rc, rx, ry, dtr) <= GRAV_DV_LIM as int,
{
    lemma_div_tz_bound(rx, HSCALE as int, 0x20_0000_0000_0000);
    lemma_div_tz_bound(ry, HSCALE as int, 0x20_0000_0000_0000);
    let hrx = half_i(rx);
    let hry = half_i(ry);
    let hc = half_i(rc);
    let q = norm2h(rx, ry);
    let d = sqrt_i(q);
    assert(hrx * hrx >= 0 && hrx * hrx <= 0x400_0000_0000_0000_0000_0000_0000
        && hry * hry >= 0 && hry * hry <= 0x400_0000_0000_0000_0000_0000_0000)
        by (nonlinear_arith)
        requires
            -0x20_0000_0000_0000 <= hrx <= 0x20_0000_0000_0000,
            -0x20_0000_0000_0000 <= hry <= 0x20_0000_0000_0000;
    lemma_sqrt_ge(q, 0x400_0000);
    lemma_sqrt_lt(q, 0x40_0000_0000_0000);
    lemma_sqrt_def(q);
    let ahc: int = if hc >= 0 { hc } else { -hc };
    assert(ahc * ahc <= q) by (nonlinear_arith)
        requires
            q == hrx * hrx + hry * hry,
            hc == hrx || hc == hry,
            ahc == (if hc >= 0 { hc } else { -hc });
    lemma_sqrt_ge(q, ahc);
    let hdt = half_i(dtr);
    lemma_div_tz_bound(dtr, HSCALE as int, HSCALE as int);
    lemma_div_tz_ordered(0, dtr, HSCALE as int);
    let numt = hdt * hc * (HSCALE as int);
    assert(numt <= 0x40_0000_0000 * q && -(0x40_0000_0000 * q) <= numt)
        by (nonlinear_arith)
        requires
            numt == hdt * hc * 0x1_0000_0000,
            0 <= hdt <= 0x1_0000_0000,
            -d <= hc <= d,
            0x400_0000 <= d,
            d * d <= q;
    lemma_div_tz_bound(numt, q, 0x40_0000_0000);
    let t = grav_t(rc, rx, ry, dtr);
    assert((G as int) * t * (SCALE as int) <= 0x1000_0000_0000_0000_0000 * d
        && -(0x1000_0000_0000_0000_0000 * d) <= (G as int) * t * (SCALE as int))
        by (nonlinear_arith)
        requires
            G == 1i128,
            -0x40_0000_0000 <= t <= 0x40_0000_0000,
            0x400_0000 <= d,
            SCALE == 0x1_0000_0000_0000_0000i128;
    lemma_div_tz_bound((G as int) * t * (SCALE as int), d, 0x1000_0000_0000_0000_0000);
    let u = grav_comp(rc, rx, ry, dtr);
    assert(m * u <= GRAV_DV_LIM as int && -(GRAV_DV_LIM as int) <= m * u)
        by (nonlinear_arith)
        requires
            1 <= m <= 0x100_0000_0000,
            -0x1000_0000_0000_0000_0000 <= u <= 0x1000_0000_0000_0000_0000,
            GRAV_DV_LIM == 0x10_0000_0000_0000_0000_0000_0000_0000i128;
}

/// Newton's third law, exactly, at one step's granularity: for two bodies
/// with nonzero measured separation, the momentum the pair update gives
/// `a` (its mass times the impulse it receives from `b`) is exactly the
/// negation of the momentum it gives `b`, component by component. The
/// acceleration one exerts on the other is thus the negation of the
/// opposite acceleration, scaled by the mass ratio.
pub proof fn law_acceleration_symmetry(a: Body, b: Body, dtr: int)
    requires
        sep2h(a, b) >= 1,
    ensures
        a.mass * (b.mass * grav_ux(
            b.pos.x.raw - a.pos.x.raw,
            b.pos.y.raw - a.pos.y.raw,
            dtr,
        )) == -(b.mass * (a.mass * grav_ux(
            a.pos.x.raw - b.pos.x.raw,
            a.pos.y.raw - b.pos.y.raw,
            dtr,
        ))),
        a.mass * (b.mass * grav_uy(
            b.pos.x.raw - a.pos.x.raw,
            b.pos.y.raw - a.pos.y.raw,
            dtr,
        )) == -(b.mass * (a.mass * grav_uy(
            a.pos.x.raw - b.pos.x.raw,
            a.pos.y.raw - b.pos.y.raw,
            dtr,
        ))),
{
    let rx = b.pos.x.raw - a.pos.x.raw;
    let ry = b.pos.y.raw - a.pos.y.raw;
    lemma_grav_u_odd(rx, ry, dtr);
    assert(a.pos.x.raw - b.pos.x.raw == -rx);
    assert(a.pos.y.raw - b.pos.y.raw == -ry);
    let ux = grav_ux(rx, ry, dtr);
    let uy = grav_uy(rx, ry, dtr);
    let ma = a.mass as int;
    let mb = b.mass as int;
    assert(ma * (mb * ux) == -(mb * (ma * -ux))) by (nonlinear_arith);
    assert(ma * (mb * uy) == -(mb * (ma * -uy))) by (nonlinear_arith);
}

/// The runtime mirror of `body_fits`, for drivers that must check the
/// integrator's preconditions before calling it.
pub fn check_body_fits(b: &Body) -> (r: bool)
    ensures
        r == body_fits(*b),
{
    1 <= b.mass && b.mass <= MASS_LIM && -POS_LIM <= b.pos.x.raw && b.pos.x.raw <= POS_LIM
        && -POS_LIM <= b.pos.y.raw && b.pos.y.raw <= POS_LIM && -VEL_LIM <= b.vel.x.raw
        && b.vel.x.raw <= VEL_LIM && -VEL_LIM <= b.vel.y.raw && b.vel.y.raw <= VEL_LIM
}

/// The runtime mirror of the pairwise separation precondition.
pub fn check_pair_sep(a: &Body, b: &Body) -> (r: bool)
    requires
        pos_ok(a.pos),
        pos_ok(b.pos),
    ensures
        r == (sep2h(*a, *b) >= QMIN as int),
{
    let rx: i128 = b.pos.x.raw - a.pos.x.raw;
    let ry: i128 = b.pos.y.raw - a.pos.y.raw;
    let hrx: i128 = div_i(rx, HSCALE);
    let hry: i128 = div_i(ry, HSCALE);
    proof {
        lemma_div_tz_bound(rx as int, HSCALE as int, 0x20_0000_0000_0000);
        lemma_div_tz_bound(ry as int, HSCALE as int, 0x20_0000_0000_0000);
        assert(hrx * hrx <= 0x400_0000_0000_0000_0000_0000_0000 && hrx * hrx >= 0)
            by (nonlinear_arith)
            requires -0x20_0000_0000_0000 <= hrx <= 0x20_0000_0000_0000;
        assert(hry * hry <= 0x400_0000_0000_0000_0000_0000_0000 && hry * hry >= 0)
            by (nonlinear_arith)
            requires -0x20_0000_0000_0000 <= hry <= 0x20_0000_0000_0000;
    }
    let q: i128 = hrx * hrx + hry * hry;
    q >= QMIN
}

} // verus!
