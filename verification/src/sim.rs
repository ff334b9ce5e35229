//! The orbit simulator: the N-body integration step over the body registry
//! and the reconstruction of the Keplerian conic that predicts the player's
//! orbit around the currently dominating body.

use vstd::prelude::*;
use crate::fixnum::Fx;
use crate::fixnum::Vec2;
use crate::fixnum::SCALE;
use crate::fixnum::HSCALE;
use crate::fixnum::QSCALE;
use crate::fixnum::div_tz;
use crate::fixnum::half_i;
use crate::fixnum::sqrt_i;
use crate::fixnum::div_i;
use crate::fixnum::isqrt_u;
use crate::fixnum::lemma_div_tz_bound;
use crate::fixnum::lemma_div_tz_ordered;
use crate::fixnum::lemma_sqrt_ge;
use crate::fixnum::lemma_sqrt_lt;
use crate::entities::G;
use crate::entities::POS_LIM;
use crate::entities::Body;
use crate::entities::CelestialObject;
use crate::entities::norm2h;
use crate::entities::mass_ok;
use crate::entities::pos_ok;
use crate::entities::vel_ok;
use crate::entities::body_fits;

verus! {

/// Cap on the semi-latus rectum that the ellipse geometry accepts
/// (2^20 world units, raw scale).
pub const PCAP: i128 = 0x10_0000_0000_0000_0000_0000;

/// Margin under an eccentricity of one below which an orbit still counts
/// as drawable: `|e|^2 <= 1 - 2^-20`, measured at raw scale.
pub const ECC_EPS: i128 = 0x1000_0000_0000;

/// The relative position of the player with respect to a body, x component.
pub open spec fn rel_rx(b: Body, p: Body) -> int {
    p.pos.x.raw - b.pos.x.raw
}

/// The relative position of the player with respect to a body, y component.
pub open spec fn rel_ry(b: Body, p: Body) -> int {
    p.pos.y.raw - b.pos.y.raw
}

/// The relative velocity of the player with respect to a body, x component.
pub open spec fn rel_vx(b: Body, p: Body) -> int {
    p.vel.x.raw - b.vel.x.raw
}

/// The relative velocity of the player with respect to a body, y component.
pub open spec fn rel_vy(b: Body, p: Body) -> int {
    p.vel.y.raw - b.vel.y.raw
}

/// The squared separation of player and body at the narrowed scale.
pub open spec fn cand_q(b: Body, p: Body) -> int {
    norm2h(rel_rx(b, p), rel_ry(b, p))
}

/// The separation of player and body at the narrowed scale.
pub open spec fn cand_d(b: Body, p: Body) -> int {
    sqrt_i(cand_q(b, p))
}

/// The specific angular momentum `r x v` of the player about a body,
/// at raw scale.
pub open spec fn cand_h64(b: Body, p: Body) -> int {
    half_i(rel_rx(b, p)) * half_i(rel_vy(b, p)) - half_i(rel_ry(b, p)) * half_i(rel_vx(b, p))
}

/// The standard gravitational parameter of a body.
pub open spec fn cand_mu(b: Body) -> int {
    (G as int) * b.mass
}

/// The x component of the eccentricity vector of the player's implied
/// orbit about a body: `(v.y * h) / mu - rhat.x`, at raw scale.
pub open spec fn cand_ex(b: Body, p: Body) -> int {
    div_tz(half_i(rel_vy(b, p)) * div_tz(cand_h64(b, p), HSCALE as int), cand_mu(b)) - div_tz(
        half_i(rel_rx(b, p)) * (SCALE as int),
        cand_d(b, p),
    )
}

/// The y component of the eccentricity vector: `(-v.x * h) / mu - rhat.y`.
pub open spec fn cand_ey(b: Body, p: Body) -> int {
    div_tz(-half_i(rel_vx(b, p)) * div_tz(cand_h64(b, p), HSCALE as int), cand_mu(b)) - div_tz(
        half_i(rel_ry(b, p)) * (SCALE as int),
        cand_d(b, p),
    )
}

/// The semi-latus rectum `h^2 / mu` of the implied orbit, at raw scale.
pub open spec fn cand_p_raw(b: Body, p: Body) -> int {
    div_tz(
        div_tz(cand_h64(b, p), QSCALE as int) * div_tz(cand_h64(b, p), QSCALE as int),
        cand_mu(b),
    ) * (HSCALE as int)
}

/// Whether a body's implied orbit is accepted as a candidate: the player
/// does not coincide with the body, and the eccentricity is below one.
pub open spec fn cand_acc(b: Body, p: Body) -> bool {
    cand_q(b, p) >= 1 && norm2h(cand_ex(b, p), cand_ey(b, p)) < SCALE as int
}

/// The index of the accepted candidate with the smallest separation among
/// the first `n` bodies, scanning forward; an earlier candidate wins ties.
pub open spec fn best_upto(s: Seq<CelestialObject>, p: Body, n: int) -> Option<int>
    decreases n,
{
    if n <= 0 {
        None
    } else {
        let prev = best_upto(s, p, n - 1);
        let k = n - 1;
        let better = match prev {
            Option::None => true,
            Option::Some(b) => cand_d(s[k].body, p) < cand_d(s[b].body, p),
        };
        if cand_acc(s[k].body, p) && better {
            Some(k)
        } else {
            prev
        }
    }
}

/// The predicted orbit of the player craft: the position of the dominating
/// body (the conic's focus), the eccentricity vector, and the semi-latus
/// rectum. Recomputed from scratch every step; `p >= 0` always.
#[derive(Clone, Copy, PartialEq, Eq, Structural, Debug)]
pub struct Orbit {
    pub body_center: Vec2,
    pub e: Vec2,
    pub p: Fx,
}

/// The orbit placeholder used when no body yields an elliptical candidate:
/// a degenerate conic (unit eccentricity along x, zero semi-latus rectum)
/// that the ellipse geometry refuses to draw.
pub open spec fn default_orbit() -> Orbit {
    Orbit {
        body_center: Vec2 { x: Fx { raw: 0 }, y: Fx { raw: 0 } },
        e: Vec2 { x: Fx { raw: SCALE }, y: Fx { raw: 0 } },
        p: Fx { raw: 0 },
    }
}

/// Whether the stored conic is drawable as an ellipse: eccentricity
/// bounded away from one and a representable, nonnegative semi-latus
/// rectum.
pub open spec fn axes_ok(o: Orbit) -> bool {
    &&& -(SCALE as int) < o.e.x.raw < SCALE as int
    &&& -(SCALE as int) < o.e.y.raw < SCALE as int
    &&& norm2h(o.e.x.raw as int, o.e.y.raw as int) <= SCALE - ECC_EPS
    &&& 0 <= o.p.raw <= PCAP as int
}

/// The semi-major axis `p / (1 - |e|^2)` of a drawable conic, raw scale.
pub open spec fn axis_major(o: Orbit) -> int {
    div_tz(o.p.raw * (HSCALE as int), SCALE - norm2h(o.e.x.raw as int, o.e.y.raw as int)) * (HSCALE as int)
}

/// The semi-minor axis `a * sqrt(1 - |e|^2)` of a drawable conic.
pub open spec fn axis_minor(o: Orbit) -> int {
    half_i(axis_major(o)) * sqrt_i(SCALE - norm2h(o.e.x.raw as int, o.e.y.raw as int))
}

impl Orbit {
    /// A conic from its focus position, eccentricity vector, and
    /// (nonnegative) semi-latus rectum.
    pub fn new(body_center: Vec2, e: Vec2, p: Fx) -> (r: Orbit)
        requires
            p.raw >= 0,
        ensures
            r.body_center == body_center,
            r.e == e,
            r.p == p,
    {
        Orbit { body_center, e, p }
    }

    /// The semi-major and semi-minor axes of the ellipse, if the conic is
    /// drawable; otherwise nothing, and no overlay is drawn. Drawable means
    /// bound (eccentricity below one) with two representability margins the
    /// fixed-point arithmetic forces: `|e|^2` must stay at least `2^-20`
    /// under one, else the semi-major axis `p / (1 - |e|^2)` can leave the
    /// i128 range, and `p` must be a nonnegative distance of at most `2^20`
    /// world units. A conic inside those margins is treated as unbound.
    pub fn ellipse_axes(&self) -> (r: Option<(Fx, Fx)>)
        ensures
            axes_ok(*self) ==> r == Some((Fx { raw: axis_major(*self) as i128 }, Fx {
                raw: axis_minor(*self) as i128,
            })),
            !axes_ok(*self) ==> r is None,
            axes_ok(*self) ==> 0 <= axis_minor(*self) <= axis_major(*self)
                <= 0x100_0000_0000_0000_0000_0000_0000,
    {
        if self.e.x.raw > -SCALE && self.e.x.raw < SCALE && self.e.y.raw > -SCALE
            && self.e.y.raw < SCALE && self.p.raw >= 0 && self.p.raw <= PCAP {
            let hex: i128 = div_i(self.e.x.raw, HSCALE);
            let hey: i128 = div_i(self.e.y.raw, HSCALE);
            proof {
                lemma_div_tz_bound(self.e.x.raw as int, HSCALE as int, HSCALE as int);
                lemma_div_tz_bound(self.e.y.raw as int, HSCALE as int, HSCALE as int);
                assert(hex * hex >= 0 && hex * hex <= 0x1_0000_0000_0000_0000
                    && hey * hey >= 0 && hey * hey <= 0x1_0000_0000_0000_0000)
                    by (nonlinear_arith)
                    requires
                        -0x1_0000_0000 <= hex <= 0x1_0000_0000,
                        -0x1_0000_0000 <= hey <= 0x1_0000_0000;
            }
            let e2: i128 = hex * hex + hey * hey;
            if e2 <= SCALE - ECC_EPS {
                let den: i128 = SCALE - e2;
                proof {
                    assert(self.p.raw * HSCALE <= 0x100_0000_0000_0000_0000 * den
                        && 0 <= self.p.raw * HSCALE) by (nonlinear_arith)
                        requires
                            0 <= self.p.raw <= 0x10_0000_0000_0000_0000_0000,
                            HSCALE == 0x1_0000_0000i128,
                            den >= 0x1000_0000_0000;
                    lemma_div_tz_bound(
                        (self.p.raw * HSCALE) as int,
                        den as int,
                        0x100_0000_0000_0000_0000,
                    );
                    lemma_div_tz_ordered(0, (self.p.raw * HSCALE) as int, den as int);
                }
                let q1: i128 = div_i(self.p.raw * HSCALE, den);
                let a: i128 = q1 * HSCALE;
                let isq: i128 = isqrt_u(den as u128) as i128;
                proof {
                    assert(isq <= 0x1_0000_0000 && isq >= 0) by (nonlinear_arith)
                        requires
                            0 <= isq as int,
                            (isq as int) * (isq as int) <= den as int,
                            den <= 0x1_0000_0000_0000_0000;
                    lemma_div_tz_bound(a as int, HSCALE as int, 0x100_0000_0000_0000_0000);
                    lemma_div_tz_ordered(0, a as int, HSCALE as int);
                }
                let ha: i128 = div_i(a, HSCALE);
                proof {
                    vstd::arithmetic::div_mod::lemma_fundamental_div_mod(a as int, HSCALE as int);
                    vstd::arithmetic::div_mod::lemma_mod_bound(a as int, HSCALE as int);
                    assert(ha as int == a as int / (HSCALE as int));
                    assert(ha * 0x1_0000_0000 <= a) by (nonlinear_arith)
                        requires
                            a as int == 0x1_0000_0000 * (ha as int) + a as int % 0x1_0000_0000,
                            a as int % 0x1_0000_0000 >= 0;
                    assert(0 <= ha * isq && ha * isq <= a) by (nonlinear_arith)
                        requires
                            0 <= isq <= 0x1_0000_0000,
                            0 <= ha,
                            ha * 0x1_0000_0000 <= a;
                }
                let b: i128 = ha * isq;
                Some((Fx { raw: a }, Fx { raw: b }))
            } else {
                None
            }
        } else {
            None
        }
    }
}

impl Default for Orbit {
    /// The placeholder conic (see `default_orbit`).
    fn default() -> (r: Orbit)
        ensures
            r == default_orbit(),
    {
        Orbit {
            body_center: Vec2 { x: Fx { raw: 0 }, y: Fx { raw: 0 } },
            e: Vec2 { x: Fx { raw: SCALE }, y: Fx { raw: 0 } },
            p: Fx { raw: 0 },
        }
    }
}

/// If one component of a vector reaches a whole unit in magnitude, its
/// squared norm at the narrowed scale reaches one as well.
proof fn lemma_big_component(x: int, y: int)
    requires
        x <= -(SCALE as int) || x >= SCALE as int || y <= -(SCALE as int) || y >= SCALE as int,
    ensures
        norm2h(x, y) >= SCALE as int,
{
    if x <= -(SCALE as int) || x >= SCALE as int {
        lemma_half_sq_big(x);
        assert(half_i(y) * half_i(y) >= 0) by (nonlinear_arith);
    } else {
        lemma_half_sq_big(y);
        assert(half_i(x) * half_i(x) >= 0) by (nonlinear_arith);
    }
}

proof fn lemma_half_sq_big(x: int)
    requires
        x <= -(SCALE as int) || x >= SCALE as int,
    ensures
        half_i(x) * half_i(x) >= SCALE as int,
{
    if x >= SCALE as int {
        lemma_div_tz_ordered(SCALE as int, x, HSCALE as int);
        assert(div_tz(SCALE as int, HSCALE as int) == HSCALE as int) by {
            crate::fixnum::lemma_div_tz_exact(HSCALE as int, HSCALE as int);
        }
        assert(half_i(x) * half_i(x) >= SCALE as int) by (nonlinear_arith)
            requires half_i(x) >= 0x1_0000_0000, SCALE == 0x1_0000_0000_0000_0000i128;
    } else {
        crate::fixnum::lemma_div_tz_odd(-x, HSCALE as int);
        lemma_div_tz_ordered(SCALE as int, -x, HSCALE as int);
        assert(div_tz(SCALE as int, HSCALE as int) == HSCALE as int) by {
            crate::fixnum::lemma_div_tz_exact(HSCALE as int, HSCALE as int);
        }
        assert(half_i(x) * half_i(x) >= SCALE as int) by (nonlinear_arith)
            requires half_i(x) <= -0x1_0000_0000, SCALE == 0x1_0000_0000_0000_0000i128;
    }
}

/// Evaluate one body as an orbit candidate for the player: whether it is
/// accepted (elliptical implied orbit), its current separation, and the
/// conic it implies.
fn eval_candidate(b: &Body, p: &Body) -> (r: (bool, i128, Orbit))
    requires
        mass_ok(b.mass as int),
        pos_ok(b.pos),
        pos_ok(p.pos),
        vel_ok(b.vel),
        vel_ok(p.vel),
    ensures
        r.0 == cand_acc(*b, *p),
        r.0 ==> {
            &&& r.1 as int == cand_d(*b, *p)
            &&& 0 <= r.1 < 0x40_0000_0000_0000
            &&& r.2.body_center == b.pos
            &&& r.2.e.x.raw == cand_ex(*b, *p)
            &&& r.2.e.y.raw == cand_ey(*b, *p)
            &&& r.2.p.raw == cand_p_raw(*b, *p)
            &&& r.2.p.raw >= 0
        },
{
    let rx: i128 = p.pos.x.raw - b.pos.x.raw;
    let ry: i128 = p.pos.y.raw - b.pos.y.raw;
    let vx: i128 = p.vel.x.raw - b.vel.x.raw;
    let vy: i128 = p.vel.y.raw - b.vel.y.raw;
    let hrx: i128 = div_i(rx, HSCALE);
    let hry: i128 = div_i(ry, HSCALE);
    let hvx: i128 = div_i(vx, HSCALE);
    let hvy: i128 = div_i(vy, HSCALE);
    proof {
        lemma_div_tz_bound(rx as int, HSCALE as int, 0x20_0000_0000_0000);
        lemma_div_tz_bound(ry as int, HSCALE as int, 0x20_0000_0000_0000);
        lemma_div_tz_bound(vx as int, HSCALE as int, 0x200_0000_0000);
        lemma_div_tz_bound(vy as int, HSCALE as int, 0x200_0000_0000);
        assert(hrx * hrx <= 0x400_0000_0000_0000_0000_0000_0000 && hrx * hrx >= 0)
            by (nonlinear_arith)
            requires -0x20_0000_0000_0000 <= hrx <= 0x20_0000_0000_0000;
        assert(hry * hry <= 0x400_0000_0000_0000_0000_0000_0000 && hry * hry >= 0)
            by (nonlinear_arith)
            requires -0x20_0000_0000_0000 <= hry <= 0x20_0000_0000_0000;
    }
    let q: i128 = hrx * hrx + hry * hry;
    let none: Orbit = Orbit {
        body_center: Vec2 { x: Fx { raw: 0 }, y: Fx { raw: 0 } },
        e: Vec2 { x: Fx { raw: SCALE }, y: Fx { raw: 0 } },
        p: Fx { raw: 0 },
    };
    if q == 0 {
        return (false, 0, none);
    }
    let d: i128 = isqrt_u(q as u128) as i128;
    proof {
        lemma_sqrt_ge(q as int, 1);
        lemma_sqrt_lt(q as int, 0x40_0000_0000_0000);
        assert(hrx * hvy <= 0x4000_0000_0000_0000_0000_0000
            && -0x4000_0000_0000_0000_0000_0000 <= hrx * hvy
            && hry * hvx <= 0x4000_0000_0000_0000_0000_0000
            && -0x4000_0000_0000_0000_0000_0000 <= hry * hvx)
            by (nonlinear_arith)
            requires
                -0x20_0000_0000_0000 <= hrx <= 0x20_0000_0000_0000,
                -0x20_0000_0000_0000 <= hry <= 0x20_0000_0000_0000,
                -0x200_0000_0000 <= hvx <= 0x200_0000_0000,
                -0x200_0000_0000 <= hvy <= 0x200_0000_0000;
    }
    let h64: i128 = hrx * hvy - hry * hvx;
    let h32: i128 = div_i(h64, HSCALE);
    let h16: i128 = div_i(h64, QSCALE);
    let mu: i128 = G * b.mass;
    proof {
        lemma_div_tz_bound(h64 as int, HSCALE as int, 0x8000_0000_0000_0000);
        lemma_div_tz_bound(h64 as int, QSCALE as int, 0x8000_0000_0000);
        assert(hvy * h32 <= 0x1_0000_0000_0000_0000_0000_0000_0000
            && -0x1_0000_0000_0000_0000_0000_0000_0000 <= hvy * h32
            && hvx * h32 <= 0x1_0000_0000_0000_0000_0000_0000_0000
            && -0x1_0000_0000_0000_0000_0000_0000_0000 <= hvx * h32)
            by (nonlinear_arith)
            requires
                -0x200_0000_0000 <= hvx <= 0x200_0000_0000,
                -0x200_0000_0000 <= hvy <= 0x200_0000_0000,
                -0x8000_0000_0000_0000 <= h32 <= 0x8000_0000_0000_0000;
        assert(0x1_0000_0000_0000_0000_0000_0000_0000 * mu
            >= 0x1_0000_0000_0000_0000_0000_0000_0000) by (nonlinear_arith)
            requires mu >= 1;
        lemma_div_tz_bound((hvy * h32) as int, mu as int, 0x1_0000_0000_0000_0000_0000_0000_0000);
        assert((-hvx) * h32 == -(hvx * h32)) by (nonlinear_arith);
        lemma_div_tz_bound(-(hvx as int * h32 as int), mu as int, 0x1_0000_0000_0000_0000_0000_0000_0000);
        assert(hrx * SCALE <= 0x20_0000_0000_0000_0000_0000_0000_0000 * d
            && -(0x20_0000_0000_0000_0000_0000_0000_0000 * d) <= hrx * SCALE
            && hry * SCALE <= 0x20_0000_0000_0000_0000_0000_0000_0000 * d
            && -(0x20_0000_0000_0000_0000_0000_0000_0000 * d) <= hry * SCALE)
            by (nonlinear_arith)
            requires
                -0x20_0000_0000_0000 <= hrx <= 0x20_0000_0000_0000,
                -0x20_0000_0000_0000 <= hry <= 0x20_0000_0000_0000,
                d >= 1,
                SCALE == 0x1_0000_0000_0000_0000i128;
        lemma_div_tz_bound(
            (hrx * SCALE) as int,
            d as int,
            0x20_0000_0000_0000_0000_0000_0000_0000,
        );
        lemma_div_tz_bound(
            (hry * SCALE) as int,
            d as int,
            0x20_0000_0000_0000_0000_0000_0000_0000,
        );
    }
    let tx: i128 = div_i(hvy * h32, mu);
    let ty: i128 = div_i(-(hvx * h32), mu);
    let rhx: i128 = div_i(hrx * SCALE, d);
    let rhy: i128 = div_i(hry * SCALE, d);
    let ex: i128 = tx - rhx;
    let ey: i128 = ty - rhy;
    proof {
        assert(ex as int == cand_ex(*b, *p));
        assert(ey as int == cand_ey(*b, *p));
    }
    if ex > -SCALE && ex < SCALE && ey > -SCALE && ey < SCALE {
        let gex: i128 = div_i(ex, HSCALE);
        let gey: i128 = div_i(ey, HSCALE);
        proof {
            lemma_div_tz_bound(ex as int, HSCALE as int, HSCALE as int);
            lemma_div_tz_bound(ey as int, HSCALE as int, HSCALE as int);
            assert(gex * gex >= 0 && gex * gex <= 0x1_0000_0000_0000_0000
                && gey * gey >= 0 && gey * gey <= 0x1_0000_0000_0000_0000)
                by (nonlinear_arith)
                requires
                    -0x1_0000_0000 <= gex <= 0x1_0000_0000,
                    -0x1_0000_0000 <= gey <= 0x1_0000_0000;
        }
        let e2: i128 = gex * gex + gey * gey;
        if e2 < SCALE {
            proof {
                assert(h16 * h16 >= 0 && h16 * h16 <= 0x4000_0000_0000_0000_0000_0000
                    && h16 * h16 <= 0x4000_0000_0000_0000_0000_0000 * mu)
                    by (nonlinear_arith)
                    requires
                        -0x8000_0000_0000 <= h16 <= 0x8000_0000_0000,
                        mu >= 1;
                lemma_div_tz_bound(
                    (h16 * h16) as int,
                    mu as int,
                    0x4000_0000_0000_0000_0000_0000,
                );
                lemma_div_tz_ordered(0, (h16 * h16) as int, mu as int);
            }
            let pp: i128 = div_i(h16 * h16, mu);
            let praw: i128 = pp * HSCALE;
            let orb: Orbit = Orbit {
                body_center: b.pos,
                e: Vec2 { x: Fx { raw: ex }, y: Fx { raw: ey } },
                p: Fx { raw: praw },
            };
            proof {
                assert(pp * HSCALE >= 0) by (nonlinear_arith)
                    requires pp >= 0, HSCALE == 0x1_0000_0000i128;
            }
            (true, d, orb)
        } else {
            (false, 0, none)
        }
    } else {
        proof {
            lemma_big_component(ex as int, ey as int);
        }
        (false, 0, none)
    }
}

/// For each body, reconstruct the conic the player's instantaneous state
/// implies about it; among the bodies whose conic is elliptical, return the
/// conic of the nearest one, or the placeholder when there is none.
pub fn predict_orbit(bodies: &Vec<CelestialObject>, player: &Body) -> (r: Orbit)
    requires
        forall|i: int| 0 <= i < bodies@.len() ==> body_fits(#[trigger] bodies@[i].body),
        pos_ok(player.pos),
        vel_ok(player.vel),
    ensures
        match best_upto(bodies@, *player, bodies@.len() as int) {
            Option::None => r == default_orbit(),
            Option::Some(k) => {
                &&& r.body_center == bodies@[k].body.pos
                &&& r.e.x.raw == cand_ex(bodies@[k].body, *player)
                &&& r.e.y.raw == cand_ey(bodies@[k].body, *player)
                &&& r.p.raw == cand_p_raw(bodies@[k].body, *player)
            },
        },
        r.p.raw >= 0,
{
    let mut orbit: Orbit = Orbit {
        body_center: Vec2 { x: Fx { raw: 0 }, y: Fx { raw: 0 } },
        e: Vec2 { x: Fx { raw: SCALE }, y: Fx { raw: 0 } },
        p: Fx { raw: 0 },
    };
    let mut min_d: i128 = i128::MAX;
    let n: usize = bodies.len();
    let mut i: usize = 0;
    while i < n
        invariant
            n == bodies@.len(),
            0 <= i <= n,
            forall|k: int| 0 <= k < bodies@.len() ==> body_fits(#[trigger] bodies@[k].body),
            pos_ok(player.pos),
            vel_ok(player.vel),
            orbit.p.raw >= 0,
            match best_upto(bodies@, *player, i as int) {
                Option::None => orbit == default_orbit() && min_d == i128::MAX,
                Option::Some(k) => {
                    &&& orbit.body_center == bodies@[k].body.pos
                    &&& orbit.e.x.raw == cand_ex(bodies@[k].body, *player)
                    &&& orbit.e.y.raw == cand_ey(bodies@[k].body, *player)
                    &&& orbit.p.raw == cand_p_raw(bodies@[k].body, *player)
                    &&& min_d as int == cand_d(bodies@[k].body, *player)
                    &&& min_d < 0x40_0000_0000_0000
                },
            },
        decreases n - i,
    {
        let bi: Body = bodies[i].body;
        let (acc, dcur, cnd) = eval_candidate(&bi, player);
        if acc && dcur < min_d {
            orbit = cnd;
            min_d = dcur;
        }
        proof {
            assert(best_upto(bodies@, *player, i + 1 as int) == {
                let prev = best_upto(bodies@, *player, i as int);
                let better = match prev {
                    Option::None => true,
                    Option::Some(b) => cand_d(bodies@[i as int].body, *player) < cand_d(
                        bodies@[b].body,
                        *player,
                    ),
                };
                if cand_acc(bodies@[i as int].body, *player) && better {
                    Some(i as int)
                } else {
                    prev
                }
            });
        }
        i = i + 1;
    }
    orbit
}

/// The x-velocity impulse body `k` receives from body `j` in one step.
pub open spec fn gdvx(s: Seq<CelestialObject>, k: int, j: int, dtr: int) -> int {
    s[j].body.mass * crate::entities::grav_ux(
        s[j].body.pos.x.raw - s[k].body.pos.x.raw,
        s[j].body.pos.y.raw - s[k].body.pos.y.raw,
        dtr,
    )
}

/// The y-velocity impulse body `k` receives from body `j` in one step.
pub open spec fn gdvy(s: Seq<CelestialObject>, k: int, j: int, dtr: int) -> int {
    s[j].body.mass * crate::entities::grav_uy(
        s[j].body.pos.x.raw - s[k].body.pos.x.raw,
        s[j].body.pos.y.raw - s[k].body.pos.y.raw,
        dtr,
    )
}

/// The x impulses body `k` receives from the bodies before index `i`.
pub open spec fn dv_below_x(s: Seq<CelestialObject>, k: int, i: int, dtr: int) -> int
    decreases i,
{
    if i <= 0 {
        0
    } else {
        dv_below_x(s, k, i - 1, dtr) + if i - 1 != k {
            gdvx(s, k, i - 1, dtr)
        } else {
            0
        }
    }
}

/// The y impulses body `k` receives from the bodies before index `i`.
pub open spec fn dv_below_y(s: Seq<CelestialObject>, k: int, i: int, dtr: int) -> int
    decreases i,
{
    if i <= 0 {
        0
    } else {
        dv_below_y(s, k, i - 1, dtr) + if i - 1 != k {
            gdvy(s, k, i - 1, dtr)
        } else {
            0
        }
    }
}

/// The total x impulse body `k` receives in one step: one contribution
/// from every other body.
pub open spec fn dv_tot_x(s: Seq<CelestialObject>, k: int, dtr: int) -> int {
    dv_below_x(s, k, s.len() as int, dtr)
}

/// The total y impulse body `k` receives in one step.
pub open spec fn dv_tot_y(s: Seq<CelestialObject>, k: int, dtr: int) -> int {
    dv_below_y(s, k, s.len() as int, dtr)
}

/// The x impulses body `i` receives from bodies with indices in `(i, j)`.
pub open spec fn row_x(s: Seq<CelestialObject>, i: int, j: int, dtr: int) -> int
    decreases j - i,
{
    if j <= i + 1 {
        0
    } else {
        row_x(s, i, j - 1, dtr) + gdvx(s, i, j - 1, dtr)
    }
}

/// The y impulses body `i` receives from bodies with indices in `(i, j)`.
pub open spec fn row_y(s: Seq<CelestialObject>, i: int, j: int, dtr: int) -> int
    decreases j - i,
{
    if j <= i + 1 {
        0
    } else {
        row_y(s, i, j - 1, dtr) + gdvy(s, i, j - 1, dtr)
    }
}

/// The x impulse the player receives from the bodies before index `i`.
pub open spec fn pdv_x(s: Seq<CelestialObject>, pl: Body, i: int, dtr: int) -> int
    decreases i,
{
    if i <= 0 {
        0
    } else {
        pdv_x(s, pl, i - 1, dtr) + s[i - 1].body.mass * crate::entities::grav_ux(
            s[i - 1].body.pos.x.raw - pl.pos.x.raw,
            s[i - 1].body.pos.y.raw - pl.pos.y.raw,
            dtr,
        )
    }
}

/// The y impulse the player receives from the bodies before index `i`.
pub open spec fn pdv_y(s: Seq<CelestialObject>, pl: Body, i: int, dtr: int) -> int
    decreases i,
{
    if i <= 0 {
        0
    } else {
        pdv_y(s, pl, i - 1, dtr) + s[i - 1].body.mass * crate::entities::grav_uy(
            s[i - 1].body.pos.x.raw - pl.pos.x.raw,
            s[i - 1].body.pos.y.raw - pl.pos.y.raw,
            dtr,
        )
    }
}

/// The x momentum of the bodies before index `n`: the sum of mass times
/// x velocity, over exact integers.
pub open spec fn mom_upto_x(s: Seq<CelestialObject>, n: int) -> int
    decreases n,
{
    if n <= 0 {
        0
    } else {
        mom_upto_x(s, n - 1) + s[n - 1].body.mass * s[n - 1].body.vel.x.raw
    }
}

/// The y momentum of the bodies before index `n`.
pub open spec fn mom_upto_y(s: Seq<CelestialObject>, n: int) -> int
    decreases n,
{
    if n <= 0 {
        0
    } else {
        mom_upto_y(s, n - 1) + s[n - 1].body.mass * s[n - 1].body.vel.y.raw
    }
}

/// The total momentum of the registry along x.
pub open spec fn mom_x(s: Seq<CelestialObject>) -> int {
    mom_upto_x(s, s.len() as int)
}

/// The total momentum of the registry along y.
pub open spec fn mom_y(s: Seq<CelestialObject>) -> int {
    mom_upto_y(s, s.len() as int)
}

/// Replacing one body with a same-mass body shifts the momentum by mass
/// times the velocity change (prefix form).
proof fn lemma_mom_upto_update(s: Seq<CelestialObject>, i: int, c: CelestialObject, n: int)
    requires
        0 <= i < s.len(),
        c.body.mass == s[i].body.mass,
        0 <= n <= s.len(),
    ensures
        mom_upto_x(s.update(i, c), n) == mom_upto_x(s, n) + if i < n {
            c.body.mass * (c.body.vel.x.raw - s[i].body.vel.x.raw)
        } else {
            0
        },
        mom_upto_y(s.update(i, c), n) == mom_upto_y(s, n) + if i < n {
            c.body.mass * (c.body.vel.y.raw - s[i].body.vel.y.raw)
        } else {
            0
        },
    decreases n,
{
    if n > 0 {
        lemma_mom_upto_update(s, i, c, n - 1);
        if i == n - 1 {
            assert(c.body.mass * c.body.vel.x.raw - c.body.mass * s[i].body.vel.x.raw
                == c.body.mass * (c.body.vel.x.raw - s[i].body.vel.x.raw)) by (nonlinear_arith);
            assert(c.body.mass * c.body.vel.y.raw - c.body.mass * s[i].body.vel.y.raw
                == c.body.mass * (c.body.vel.y.raw - s[i].body.vel.y.raw)) by (nonlinear_arith);
        }
    }
}

/// The per-pair impulse is bounded, stated for the sequence form.
proof fn lemma_gdv_bound(s: Seq<CelestialObject>, k: int, j: int, dtr: int)
    requires
        0 <= k < s.len(),
        0 <= j < s.len(),
        body_fits(s[k].body),
        body_fits(s[j].body),
        crate::entities::sep2h(s[k].body, s[j].body) >= crate::entities::QMIN as int,
        1 <= dtr <= SCALE as int,
    ensures
        -(crate::entities::GRAV_DV_LIM as int) <= gdvx(s, k, j, dtr)
            <= crate::entities::GRAV_DV_LIM as int,
        -(crate::entities::GRAV_DV_LIM as int) <= gdvy(s, k, j, dtr)
            <= crate::entities::GRAV_DV_LIM as int,
{
    let rx = s[j].body.pos.x.raw - s[k].body.pos.x.raw;
    let ry = s[j].body.pos.y.raw - s[k].body.pos.y.raw;
    crate::entities::lemma_grav_comp_bound(rx, rx, ry, dtr, s[j].body.mass as int);
    crate::entities::lemma_grav_comp_bound(ry, rx, ry, dtr, s[j].body.mass as int);
}

/// The pairwise sums over a prefix are bounded by the prefix length times
/// the per-pair bound.
proof fn lemma_dv_below_bound(s: Seq<CelestialObject>, k: int, i: int, dtr: int)
    requires
        0 <= k < s.len(),
        0 <= i <= s.len(),
        forall|j: int| 0 <= j < s.len() ==> body_fits(#[trigger] s[j].body),
        forall|a: int, b: int|
            0 <= a < s.len() && 0 <= b < s.len() && a != b ==> crate::entities::sep2h(
                #[trigger] s[a].body,
                #[trigger] s[b].body,
            ) >= crate::entities::QMIN as int,
        1 <= dtr <= SCALE as int,
    ensures
        -(i * (crate::entities::GRAV_DV_LIM as int)) <= dv_below_x(s, k, i, dtr)
            <= i * (crate::entities::GRAV_DV_LIM as int),
        -(i * (crate::entities::GRAV_DV_LIM as int)) <= dv_below_y(s, k, i, dtr)
            <= i * (crate::entities::GRAV_DV_LIM as int),
    decreases i,
{
    if i > 0 {
        lemma_dv_below_bound(s, k, i - 1, dtr);
        if i - 1 != k {
            lemma_gdv_bound(s, k, i - 1, dtr);
        }
    }
}

/// The partial row sums are bounded as well.
proof fn lemma_row_bound(s: Seq<CelestialObject>, i: int, j: int, dtr: int)
    requires
        0 <= i < s.len(),
        i <= j <= s.len(),
        forall|a: int| 0 <= a < s.len() ==> body_fits(#[trigger] s[a].body),
        forall|a: int, b: int|
            0 <= a < s.len() && 0 <= b < s.len() && a != b ==> crate::entities::sep2h(
                #[trigger] s[a].body,
                #[trigger] s[b].body,
            ) >= crate::entities::QMIN as int,
        1 <= dtr <= SCALE as int,
    ensures
        -((j - i) * (crate::entities::GRAV_DV_LIM as int)) <= row_x(s, i, j, dtr)
            <= (j - i) * (crate::entities::GRAV_DV_LIM as int),
        -((j - i) * (crate::entities::GRAV_DV_LIM as int)) <= row_y(s, i, j, dtr)
            <= (j - i) * (crate::entities::GRAV_DV_LIM as int),
    decreases j - i,
{
    if j > i + 1 {
        lemma_row_bound(s, i, j - 1, dtr);
        lemma_gdv_bound(s, i, j - 1, dtr);
    }
}

/// The player's accumulated impulse is bounded by the number of bodies
/// seen so far times the per-pair bound.
proof fn lemma_pdv_bound(s: Seq<CelestialObject>, pl: Body, i: int, dtr: int)
    requires
        0 <= i <= s.len(),
        forall|j: int| 0 <= j < s.len() ==> body_fits(#[trigger] s[j].body),
        crate::entities::pos_ok(pl.pos),
        forall|j: int|
            0 <= j < s.len() ==> crate::entities::sep2h(pl, #[trigger] s[j].body)
                >= crate::entities::QMIN as int,
        1 <= dtr <= SCALE as int,
    ensures
        -(i * (crate::entities::GRAV_DV_LIM as int)) <= pdv_x(s, pl, i, dtr)
            <= i * (crate::entities::GRAV_DV_LIM as int),
        -(i * (crate::entities::GRAV_DV_LIM as int)) <= pdv_y(s, pl, i, dtr)
            <= i * (crate::entities::GRAV_DV_LIM as int),
    decreases i,
{
    if i > 0 {
        lemma_pdv_bound(s, pl, i - 1, dtr);
        let rx = s[i - 1].body.pos.x.raw - pl.pos.x.raw;
        let ry = s[i - 1].body.pos.y.raw - pl.pos.y.raw;
        crate::entities::lemma_grav_comp_bound(rx, rx, ry, dtr, s[i - 1].body.mass as int);
        crate::entities::lemma_grav_comp_bound(ry, rx, ry, dtr, s[i - 1].body.mass as int);
    }
}

/// The impulses from earlier bodies plus the row of later ones make up the
/// whole: body `i`'s total is its below-`i` part plus its row.
proof fn lemma_row_total(s: Seq<CelestialObject>, i: int, j: int, dtr: int)
    requires
        0 <= i <= j <= s.len(),
    ensures
        dv_below_x(s, i, j, dtr) == dv_below_x(s, i, i, dtr) + row_x(s, i, j, dtr),
        dv_below_y(s, i, j, dtr) == dv_below_y(s, i, i, dtr) + row_y(s, i, j, dtr),
    decreases j - i,
{
    if j > i {
        lemma_row_total(s, i, j - 1, dtr);
    }
}

/// Body `k` has finished the step: same mass, radius and colour; the
/// velocity holds one impulse from every other body; the position advanced
/// by the updated velocity times `dt` (semi-implicit Euler).
pub open spec fn stepped_done(
    s0: Seq<CelestialObject>,
    s: Seq<CelestialObject>,
    k: int,
    dtr: int,
) -> bool {
    let c0 = s0[k];
    let c = s[k];
    &&& c.rad == c0.rad
    &&& c.color == c0.color
    &&& c.body.mass == c0.body.mass
    &&& c.body.vel.x.raw == c0.body.vel.x.raw + dv_tot_x(s0, k, dtr)
    &&& c.body.vel.y.raw == c0.body.vel.y.raw + dv_tot_y(s0, k, dtr)
    &&& c.body.pos.x.raw == c0.body.pos.x.raw + half_i(
        c0.body.vel.x.raw + dv_tot_x(s0, k, dtr),
    ) * half_i(dtr)
    &&& c.body.pos.y.raw == c0.body.pos.y.raw + half_i(
        c0.body.vel.y.raw + dv_tot_y(s0, k, dtr),
    ) * half_i(dtr)
}

/// Body `k` still waits in the pair sweep: unchanged but for the impulses
/// already received from the bodies before index `i`.
pub open spec fn stepped_pending(
    s0: Seq<CelestialObject>,
    s: Seq<CelestialObject>,
    k: int,
    i: int,
    dtr: int,
) -> bool {
    let c0 = s0[k];
    let c = s[k];
    &&& c.rad == c0.rad
    &&& c.color == c0.color
    &&& c.body.mass == c0.body.mass
    &&& c.body.pos == c0.body.pos
    &&& c.body.vel.x.raw == c0.body.vel.x.raw + dv_below_x(s0, k, i, dtr)
    &&& c.body.vel.y.raw == c0.body.vel.y.raw + dv_below_y(s0, k, i, dtr)
}

/// Advance the whole registry and the player craft by one fixed timestep.
///
/// Every unordered pair of bodies exchanges equal-and-opposite impulses,
/// evaluated once per pair in the same pass; the player receives an impulse
/// from every body but exerts none; then each body's position advances by
/// its updated velocity (semi-implicit Euler). The registry's total
/// momentum, as exact integers, is unchanged; the player's position is
/// advanced separately by the driver.
#[verifier::rlimit(100)]
pub fn step(bodies: &mut Vec<CelestialObject>, player: &mut Body, dt: Fx)
    requires
        old(bodies)@.len() <= 64,
        crate::entities::dt_ok(dt),
        forall|k: int|
            0 <= k < old(bodies)@.len() ==> body_fits(#[trigger] old(bodies)@[k].body),
        forall|a: int, b: int|
            0 <= a < old(bodies)@.len() && 0 <= b < old(bodies)@.len() && a != b
                ==> crate::entities::sep2h(
                #[trigger] old(bodies)@[a].body,
                #[trigger] old(bodies)@[b].body,
            ) >= crate::entities::QMIN as int,
        body_fits(*old(player)),
        forall|k: int|
            0 <= k < old(bodies)@.len() ==> crate::entities::sep2h(
                *old(player),
                #[trigger] old(bodies)@[k].body,
            ) >= crate::entities::QMIN as int,
    ensures
        final(bodies)@.len() == old(bodies)@.len(),
        forall|k: int|
            0 <= k < final(bodies)@.len() ==> stepped_done(
                old(bodies)@,
                final(bodies)@,
                k,
                dt.raw as int,
            ),
        mom_x(final(bodies)@) == mom_x(old(bodies)@),
        mom_y(final(bodies)@) == mom_y(old(bodies)@),
        final(player).pos == old(player).pos,
        final(player).mass == old(player).mass,
        final(player).vel.x.raw == old(player).vel.x.raw + pdv_x(
            old(bodies)@,
            *old(player),
            old(bodies)@.len() as int,
            dt.raw as int,
        ),
        final(player).vel.y.raw == old(player).vel.y.raw + pdv_y(
            old(bodies)@,
            *old(player),
            old(bodies)@.len() as int,
            dt.raw as int,
        ),
{
    let ghost s0 = old(bodies)@;
    let ghost pl0 = *old(player);
    let ghost dtr = dt.raw as int;
    let n: usize = bodies.len();
    let mut i: usize = 0;
    while i < n
        invariant
            n == bodies@.len(),
            n == s0.len(),
            n <= 64,
            crate::entities::dt_ok(dt),
            dtr == dt.raw as int,
            body_fits(pl0),
            forall|k: int| 0 <= k < n ==> body_fits(#[trigger] s0[k].body),
            forall|a: int, b: int|
                0 <= a < n && 0 <= b < n && a != b ==> crate::entities::sep2h(
                    #[trigger] s0[a].body,
                    #[trigger] s0[b].body,
                ) >= crate::entities::QMIN as int,
            forall|k: int|
                0 <= k < n ==> crate::entities::sep2h(pl0, #[trigger] s0[k].body)
                    >= crate::entities::QMIN as int,
            0 <= i <= n,
            forall|k: int| 0 <= k < i ==> stepped_done(s0, bodies@, k, dtr),
            forall|k: int| i <= k < n ==> stepped_pending(s0, bodies@, k, i as int, dtr),
            mom_upto_x(bodies@, n as int) == mom_upto_x(s0, n as int),
            mom_upto_y(bodies@, n as int) == mom_upto_y(s0, n as int),
            player.pos == pl0.pos,
            player.mass == pl0.mass,
            player.vel.x.raw == pl0.vel.x.raw + pdv_x(s0, pl0, i as int, dtr),
            player.vel.y.raw == pl0.vel.y.raw + pdv_y(s0, pl0, i as int, dtr),
        decreases n - i,
    {
        let ghost i1: int = i as int + 1;
        proof {
            assert(stepped_pending(s0, bodies@, i as int, i as int, dtr));
            assert(row_x(s0, i as int, i1, dtr) == 0);
            assert(row_y(s0, i as int, i1, dtr) == 0);
        }
        let mut j: usize = i + 1;
        while j < n
            invariant
                n == bodies@.len(),
                n == s0.len(),
                n <= 64,
                crate::entities::dt_ok(dt),
                dtr == dt.raw as int,
                body_fits(pl0),
                forall|k: int| 0 <= k < n ==> body_fits(#[trigger] s0[k].body),
                forall|a: int, b: int|
                    0 <= a < n && 0 <= b < n && a != b ==> crate::entities::sep2h(
                        #[trigger] s0[a].body,
                        #[trigger] s0[b].body,
                    ) >= crate::entities::QMIN as int,
                forall|k: int|
                    0 <= k < n ==> crate::entities::sep2h(pl0, #[trigger] s0[k].body)
                        >= crate::entities::QMIN as int,
                i < n,
                i1 == i as int + 1,
                i + 1 <= j <= n,
                forall|k: int| 0 <= k < i ==> stepped_done(s0, bodies@, k, dtr),
                bodies@[i as int].rad == s0[i as int].rad,
                bodies@[i as int].color == s0[i as int].color,
                bodies@[i as int].body.mass == s0[i as int].body.mass,
                bodies@[i as int].body.pos == s0[i as int].body.pos,
                bodies@[i as int].body.vel.x.raw == s0[i as int].body.vel.x.raw + dv_below_x(
                    s0,
                    i as int,
                    i as int,
                    dtr,
                ) + row_x(s0, i as int, j as int, dtr),
                bodies@[i as int].body.vel.y.raw == s0[i as int].body.vel.y.raw + dv_below_y(
                    s0,
                    i as int,
                    i as int,
                    dtr,
                ) + row_y(s0, i as int, j as int, dtr),
                forall|k: int| i < k < j ==> stepped_pending(s0, bodies@, k, i1, dtr),
                forall|k: int| j <= k < n ==> stepped_pending(s0, bodies@, k, i as int, dtr),
                mom_upto_x(bodies@, n as int) == mom_upto_x(s0, n as int),
                mom_upto_y(bodies@, n as int) == mom_upto_y(s0, n as int),
                player.pos == pl0.pos,
                player.mass == pl0.mass,
                player.vel.x.raw == pl0.vel.x.raw + pdv_x(s0, pl0, i as int, dtr),
                player.vel.y.raw == pl0.vel.y.raw + pdv_y(s0, pl0, i as int, dtr),
            decreases n - j,
        {
            let ghost b0 = bodies@;
            let ci = bodies[i];
            let cj = bodies[j];
            proof {
                assert(stepped_pending(s0, bodies@, j as int, i as int, dtr));
                assert(body_fits(s0[i as int].body));
                assert(body_fits(s0[j as int].body));
                assert(crate::entities::sep2h(s0[i as int].body, s0[j as int].body)
                    >= crate::entities::QMIN as int);
                assert(crate::entities::sep2h(s0[j as int].body, s0[i as int].body)
                    >= crate::entities::QMIN as int);
                lemma_dv_below_bound(s0, i as int, i as int, dtr);
                lemma_row_bound(s0, i as int, j as int, dtr);
                lemma_dv_below_bound(s0, j as int, i as int, dtr);
            }
            let mut nbi = ci.body;
            nbi.apply_gravity(&cj.body, dt);
            let mut nbj = cj.body;
            nbj.apply_gravity(&ci.body, dt);
            let nci = CelestialObject { body: nbi, rad: ci.rad, color: ci.color };
            let ncj = CelestialObject { body: nbj, rad: cj.rad, color: cj.color };
            bodies.set(i, nci);
            bodies.set(j, ncj);
            proof {
                assert(nbi.vel.x.raw - ci.body.vel.x.raw == gdvx(s0, i as int, j as int, dtr));
                assert(nbi.vel.y.raw - ci.body.vel.y.raw == gdvy(s0, i as int, j as int, dtr));
                assert(nbj.vel.x.raw - cj.body.vel.x.raw == gdvx(s0, j as int, i as int, dtr));
                assert(nbj.vel.y.raw - cj.body.vel.y.raw == gdvy(s0, j as int, i as int, dtr));
                assert(row_x(s0, i as int, j + 1 as int, dtr) == row_x(s0, i as int, j as int, dtr)
                    + gdvx(s0, i as int, j as int, dtr));
                assert(row_y(s0, i as int, j + 1 as int, dtr) == row_y(s0, i as int, j as int, dtr)
                    + gdvy(s0, i as int, j as int, dtr));
                assert(dv_below_x(s0, j as int, i + 1 as int, dtr) == dv_below_x(
                    s0,
                    j as int,
                    i as int,
                    dtr,
                ) + gdvx(s0, j as int, i as int, dtr));
                assert(dv_below_y(s0, j as int, i + 1 as int, dtr) == dv_below_y(
                    s0,
                    j as int,
                    i as int,
                    dtr,
                ) + gdvy(s0, j as int, i as int, dtr));
                lemma_mom_upto_update(b0, i as int, nci, n as int);
                lemma_mom_upto_update(b0.update(i as int, nci), j as int, ncj, n as int);
                let rx = s0[j as int].body.pos.x.raw - s0[i as int].body.pos.x.raw;
                let ry = s0[j as int].body.pos.y.raw - s0[i as int].body.pos.y.raw;
                crate::entities::lemma_grav_u_odd(rx, ry, dtr);
                let ux = crate::entities::grav_ux(rx, ry, dtr);
                let uy = crate::entities::grav_uy(rx, ry, dtr);
                let mi = s0[i as int].body.mass as int;
                let mj = s0[j as int].body.mass as int;
                assert(mi * (mj * ux) + mj * (mi * -ux) == 0) by (nonlinear_arith);
                assert(mi * (mj * uy) + mj * (mi * -uy) == 0) by (nonlinear_arith);
                assert(mi * gdvx(s0, i as int, j as int, dtr) + mj * gdvx(
                    s0,
                    j as int,
                    i as int,
                    dtr,
                ) == 0);
                assert(mi * gdvy(s0, i as int, j as int, dtr) + mj * gdvy(
                    s0,
                    j as int,
                    i as int,
                    dtr,
                ) == 0);
                assert forall|k: int| 0 <= k < i implies stepped_done(s0, bodies@, k, dtr) by {
                    assert(stepped_done(s0, b0, k, dtr));
                    assert(bodies@[k] == b0[k]);
                }
                assert(stepped_pending(s0, bodies@, j as int, i1, dtr));
                assert forall|k: int| i < k < j + 1 implies stepped_pending(
                    s0,
                    bodies@,
                    k,
                    i1,
                    dtr,
                ) by {
                    if k < j {
                        assert(stepped_pending(s0, b0, k, i1, dtr));
                        assert(bodies@[k] == b0[k]);
                    }
                }
                assert forall|k: int| j + 1 <= k < n implies stepped_pending(
                    s0,
                    bodies@,
                    k,
                    i as int,
                    dtr,
                ) by {
                    assert(stepped_pending(s0, b0, k, i as int, dtr));
                    assert(bodies@[k] == b0[k]);
                }
            }
            j = j + 1;
        }
        let ci2 = bodies[i];
        proof {
            assert(body_fits(s0[i as int].body));
            assert(crate::entities::sep2h(pl0, s0[i as int].body)
                >= crate::entities::QMIN as int);
            lemma_pdv_bound(s0, pl0, i as int, dtr);
        }
        player.apply_gravity(&ci2.body, dt);
        proof {
            assert(pdv_x(s0, pl0, i + 1 as int, dtr) == pdv_x(s0, pl0, i as int, dtr) + s0[i as int].body.mass
                * crate::entities::grav_ux(
                s0[i as int].body.pos.x.raw - pl0.pos.x.raw,
                s0[i as int].body.pos.y.raw - pl0.pos.y.raw,
                dtr,
            ));
            assert(pdv_y(s0, pl0, i + 1 as int, dtr) == pdv_y(s0, pl0, i as int, dtr) + s0[i as int].body.mass
                * crate::entities::grav_uy(
                s0[i as int].body.pos.x.raw - pl0.pos.x.raw,
                s0[i as int].body.pos.y.raw - pl0.pos.y.raw,
                dtr,
            ));
        }
        let ghost b1 = bodies@;
        let mut ci3 = bodies[i];
        proof {
            assert(body_fits(s0[i as int].body));
            lemma_row_total(s0, i as int, n as int, dtr);
            lemma_dv_below_bound(s0, i as int, i as int, dtr);
            lemma_row_bound(s0, i as int, n as int, dtr);
            assert(crate::entities::vel_acc_ok(ci3.body.vel));
        }
        ci3.update(dt);
        bodies.set(i, ci3);
        proof {
            lemma_mom_upto_update(b1, i as int, ci3, n as int);
            assert(stepped_done(s0, bodies@, i as int, dtr));
            assert forall|k: int| 0 <= k < i implies stepped_done(s0, bodies@, k, dtr) by {
                assert(stepped_done(s0, b1, k, dtr));
                assert(bodies@[k] == b1[k]);
            }
            assert forall|k: int| i + 1 <= k < n implies stepped_pending(
                s0,
                bodies@,
                k,
                i1,
                dtr,
            ) by {
                assert(stepped_pending(s0, b1, k, i1, dtr));
                assert(bodies@[k] == b1[k]);
            }
        }
        i = i + 1;
    }
    proof {
        assert(mom_x(bodies@) == mom_upto_x(bodies@, n as int));
        assert(mom_x(s0) == mom_upto_x(s0, n as int));
    }
}

/// The selection only ever picks an accepted candidate, and only among
/// the scanned prefix: an unbound (eccentricity at least one) implied
/// orbit never becomes the predicted one.
pub proof fn lemma_best_in_range(s: Seq<CelestialObject>, p: Body, n: int)
    requires
        n <= s.len(),
    ensures
        match best_upto(s, p, n) {
            Option::None => true,
            Option::Some(j) => 0 <= j < n && cand_acc(s[j].body, p),
        },
    decreases n,
{
    if n > 0 {
        lemma_best_in_range(s, p, n - 1);
    }
}

/// A body whose implied orbit is not elliptical is never the selected
/// candidate, whatever else the registry holds.
pub proof fn law_unbound_rejected(s: Seq<CelestialObject>, p: Body, n: int, k: int)
    requires
        0 <= k < n <= s.len(),
        !cand_acc(s[k].body, p),
    ensures
        best_upto(s, p, n) != Some(k),
{
    lemma_best_in_range(s, p, n);
}

/// A player on an exactly radial trajectory (zero measured angular
/// momentum: the cross product of relative position and velocity vanishes
/// at the narrowed scale) yields a degenerate conic with zero semi-latus
/// rectum.
pub proof fn law_radial_zero_latus(b: Body, p: Body)
    requires
        b.mass >= 1,
        half_i(rel_rx(b, p)) * half_i(rel_vy(b, p)) == half_i(rel_ry(b, p)) * half_i(
            rel_vx(b, p),
        ),
    ensures
        cand_p_raw(b, p) == 0,
{
    assert(cand_h64(b, p) == 0);
    vstd::arithmetic::div_mod::lemma_div_of0(QSCALE as int);
    assert(div_tz(0, QSCALE as int) == 0);
    vstd::arithmetic::div_mod::lemma_div_of0((G as int) * b.mass);
    assert(cand_mu(b) >= 1) by (nonlinear_arith)
        requires b.mass >= 1, G == 1i128, cand_mu(b) == (G as int) * b.mass;
    assert(div_tz(0int * 0int, cand_mu(b)) == 0);
}

/// The orbit-predictor round trip for an exactly representable circular
/// state: a body of mass `sv^2 * r0` and a player at distance `r0` along
/// the x axis moving perpendicular at speed `sv` (the circular-orbit
/// speed for that radius) yield an eccentricity of exactly zero and a
/// semi-latus rectum of exactly `r0`; with that body alone in the
/// registry, it is the selected candidate.
pub proof fn law_circular_orbit_round_trip(
    s: Seq<CelestialObject>,
    b: Body,
    p: Body,
    r0: int,
    sv: int,
)
    requires
        s.len() == 1,
        s[0].body == b,
        b.mass == sv * sv * r0,
        1 <= r0 <= 0x10_0000,
        1 <= sv <= 0x100,
        rel_rx(b, p) == r0 * (SCALE as int),
        rel_ry(b, p) == 0,
        rel_vx(b, p) == 0,
        rel_vy(b, p) == sv * (SCALE as int),
    ensures
        cand_ex(b, p) == 0,
        cand_ey(b, p) == 0,
        cand_p_raw(b, p) == r0 * (SCALE as int),
        cand_acc(b, p),
        best_upto(s, p, 1) == Some(0int),
{
    let sc = SCALE as int;
    let hs = HSCALE as int;
    let qs = QSCALE as int;
    let mu = cand_mu(b);
    assert(mu == sv * sv * r0) by (nonlinear_arith)
        requires G == 1i128, mu == (G as int) * b.mass, b.mass == sv * sv * r0;
    assert(mu >= 1) by (nonlinear_arith)
        requires 1 <= r0, 1 <= sv, mu == sv * sv * r0;

    // Narrowed separation and velocity are exact.
    assert(r0 * sc == (r0 * hs) * hs) by (nonlinear_arith)
        requires sc == hs * hs;
    crate::fixnum::lemma_div_tz_exact(r0 * hs, hs);
    assert(half_i(rel_rx(b, p)) == r0 * hs);
    assert(sv * sc == (sv * hs) * hs) by (nonlinear_arith)
        requires sc == hs * hs;
    crate::fixnum::lemma_div_tz_exact(sv * hs, hs);
    assert(half_i(rel_vy(b, p)) == sv * hs);
    vstd::arithmetic::div_mod::lemma_div_of0(hs);
    assert(half_i(0) == 0);
    assert(half_i(rel_ry(b, p)) == 0);
    assert(half_i(rel_vx(b, p)) == 0);

    // The squared separation is a perfect square.
    let q = cand_q(b, p);
    assert(q == (r0 * hs) * (r0 * hs));
    assert(q >= 1) by (nonlinear_arith)
        requires q == (r0 * hs) * (r0 * hs), r0 >= 1, hs == 0x1_0000_0000i128;
    assert(r0 * hs >= 0) by (nonlinear_arith)
        requires r0 >= 1, hs == 0x1_0000_0000i128;
    crate::fixnum::lemma_sqrt_exact(r0 * hs);
    assert(cand_d(b, p) == r0 * hs);

    // The angular momentum is exact: h = r0 * sv at raw scale.
    let h = cand_h64(b, p);
    assert(h == (r0 * hs) * (sv * hs));
    assert(h == (r0 * sv) * sc) by (nonlinear_arith)
        requires h == (r0 * hs) * (sv * hs), sc == hs * hs;

    // The eccentricity vector vanishes exactly.
    assert(h == ((r0 * sv) * hs) * hs) by (nonlinear_arith)
        requires h == (r0 * sv) * sc, sc == hs * hs;
    crate::fixnum::lemma_div_tz_exact((r0 * sv) * hs, hs);
    let h32 = div_tz(h, hs);
    assert(h32 == (r0 * sv) * hs);
    assert((sv * hs) * h32 == sc * mu) by (nonlinear_arith)
        requires
            h32 == (r0 * sv) * hs,
            mu == sv * sv * r0,
            sc == hs * hs;
    crate::fixnum::lemma_div_tz_exact(sc, mu);
    assert(div_tz(half_i(rel_vy(b, p)) * h32, mu) == sc);
    assert((r0 * hs) * sc == sc * (r0 * hs)) by (nonlinear_arith);
    crate::fixnum::lemma_div_tz_exact(sc, r0 * hs);
    assert(div_tz(half_i(rel_rx(b, p)) * sc, cand_d(b, p)) == sc);
    assert(cand_ex(b, p) == 0);
    vstd::arithmetic::div_mod::lemma_div_of0(mu);
    vstd::arithmetic::div_mod::lemma_div_of0(r0 * hs);
    assert(-half_i(rel_vx(b, p)) * h32 == 0) by (nonlinear_arith)
        requires half_i(rel_vx(b, p)) == 0;
    assert(half_i(rel_ry(b, p)) * sc == 0) by (nonlinear_arith)
        requires half_i(rel_ry(b, p)) == 0;
    assert(cand_ey(b, p) == 0);

    // The semi-latus rectum comes back as exactly r0.
    let qq = 0x1_0000i128 as int;
    assert(h == ((r0 * sv) * qq) * qs) by (nonlinear_arith)
        requires
            h == (r0 * sv) * sc,
            sc == hs * hs,
            hs == 0x1_0000_0000i128,
            qs == 0x1_0000_0000_0000i128,
            qq == 0x1_0000i128;
    crate::fixnum::lemma_div_tz_exact((r0 * sv) * qq, qs);
    let h16 = div_tz(h, qs);
    assert(h16 == (r0 * sv) * qq);
    assert(h16 * h16 == (r0 * hs) * mu) by (nonlinear_arith)
        requires
            h16 == (r0 * sv) * qq,
            mu == sv * sv * r0,
            hs == 0x1_0000_0000i128,
            qq == 0x1_0000i128;
    crate::fixnum::lemma_div_tz_exact(r0 * hs, mu);
    assert(div_tz(h16 * h16, mu) == r0 * hs);
    assert((r0 * hs) * hs == r0 * sc) by (nonlinear_arith)
        requires sc == hs * hs;
    assert(cand_p_raw(b, p) == r0 * sc);

    // The candidate is accepted and, alone, selected.
    assert(half_i(cand_ex(b, p)) == 0);
    assert(half_i(cand_ey(b, p)) == 0);
    assert(norm2h(cand_ex(b, p), cand_ey(b, p)) == 0);
    assert(cand_acc(b, p));
    assert(best_upto(s, p, 0) is None);
    assert(best_upto(s, p, 1) == Some(0int));
}

/// The norm of the eccentricity vector at the narrowed scale.
pub open spec fn ecc_norm32(e: Vec2) -> int {
    sqrt_i(norm2h(e.x.raw as int, e.y.raw as int))
}

/// The linear eccentricity `sqrt(a^2 - b^2)` of the ellipse, measured with
/// 16 fractional bits.
pub open spec fn lin_ecc16(araw: int, braw: int) -> int {
    sqrt_i(
        div_tz(araw, QSCALE as int) * div_tz(araw, QSCALE as int) - div_tz(braw, QSCALE as int)
            * div_tz(braw, QSCALE as int),
    )
}

/// The x offset of the ellipse centre from the focus: the unit eccentricity
/// vector times the linear eccentricity (zero for a circular conic).
pub open spec fn center_off_x(o: Orbit, araw: int, braw: int) -> int {
    if ecc_norm32(o.e) == 0 {
        0
    } else {
        div_tz(half_i(o.e.x.raw as int) * (HSCALE as int), ecc_norm32(o.e)) * lin_ecc16(
            araw,
            braw,
        ) * 0x1_0000
    }
}

/// The y offset of the ellipse centre from the focus.
pub open spec fn center_off_y(o: Orbit, araw: int, braw: int) -> int {
    if ecc_norm32(o.e) == 0 {
        0
    } else {
        div_tz(half_i(o.e.y.raw as int) * (HSCALE as int), ecc_norm32(o.e)) * lin_ecc16(
            araw,
            braw,
        ) * 0x1_0000
    }
}

impl Orbit {
    /// The centre of the ellipse with the given axes: the focus shifted
    /// against the eccentricity direction by the linear eccentricity
    /// `sqrt(a^2 - b^2)`. For a (computed) circular conic the centre is the
    /// focus itself.
    pub fn ellipse_center(&self, a: Fx, b: Fx) -> (r: Vec2)
        requires
            -(SCALE as int) < self.e.x.raw < SCALE as int,
            -(SCALE as int) < self.e.y.raw < SCALE as int,
            0 <= b.raw <= a.raw <= 0x100_0000_0000_0000_0000_0000_0000,
            -(POS_LIM as int) <= self.body_center.x.raw <= POS_LIM as int,
            -(POS_LIM as int) <= self.body_center.y.raw <= POS_LIM as int,
        ensures
            r.x.raw == self.body_center.x.raw - center_off_x(*self, a.raw as int, b.raw as int),
            r.y.raw == self.body_center.y.raw - center_off_y(*self, a.raw as int, b.raw as int),
    {
        let hex: i128 = div_i(self.e.x.raw, HSCALE);
        let hey: i128 = div_i(self.e.y.raw, HSCALE);
        proof {
            lemma_div_tz_bound(self.e.x.raw as int, HSCALE as int, HSCALE as int);
            lemma_div_tz_bound(self.e.y.raw as int, HSCALE as int, HSCALE as int);
            assert(hex * hex >= 0 && hex * hex <= 0x1_0000_0000_0000_0000
                && hey * hey >= 0 && hey * hey <= 0x1_0000_0000_0000_0000)
                by (nonlinear_arith)
                requires
                    -0x1_0000_0000 <= hex <= 0x1_0000_0000,
                    -0x1_0000_0000 <= hey <= 0x1_0000_0000;
        }
        let ne2: i128 = hex * hex + hey * hey;
        let de: i128 = isqrt_u(ne2 as u128) as i128;
        if de == 0 {
            return self.body_center;
        }
        proof {
            lemma_sqrt_lt(ne2 as int, 0x2_0000_0000);
            let ahx: int = if hex >= 0 { hex as int } else { -(hex as int) };
            let ahy: int = if hey >= 0 { hey as int } else { -(hey as int) };
            assert(ahx * ahx <= ne2 as int && ahy * ahy <= ne2 as int) by (nonlinear_arith)
                requires
                    ne2 as int == (hex as int) * (hex as int) + (hey as int) * (hey as int),
                    ahx == (if hex >= 0 { hex as int } else { -(hex as int) }),
                    ahy == (if hey >= 0 { hey as int } else { -(hey as int) });
            lemma_sqrt_ge(ne2 as int, ahx);
            lemma_sqrt_ge(ne2 as int, ahy);
            lemma_div_tz_ordered(0, a.raw as int, QSCALE as int);
            lemma_div_tz_ordered(b.raw as int, a.raw as int, QSCALE as int);
            lemma_div_tz_bound(a.raw as int, QSCALE as int, 0x100_0000_0000_0000);
        }
        let a16: i128 = div_i(a.raw, QSCALE);
        let b16: i128 = div_i(b.raw, QSCALE);
        proof {
            assert(b16 * b16 <= a16 * a16 && a16 * a16 <= 0x1_0000_0000_0000_0000_0000_0000_0000
                && 0 <= b16 * b16) by (nonlinear_arith)
                requires 0 <= b16 <= a16 <= 0x100_0000_0000_0000;
        }
        let diff: i128 = a16 * a16 - b16 * b16;
        let c16: i128 = isqrt_u(diff as u128) as i128;
        proof {
            assert(c16 <= 0x100_0000_0000_0000 && c16 >= 0) by (nonlinear_arith)
                requires
                    0 <= c16 as int,
                    (c16 as int) * (c16 as int) <= diff as int,
                    diff <= 0x1_0000_0000_0000_0000_0000_0000_0000;
            assert(hex * HSCALE <= de * HSCALE && -(de * HSCALE) <= hex * HSCALE
                && hey * HSCALE <= de * HSCALE && -(de * HSCALE) <= hey * HSCALE)
                by (nonlinear_arith)
                requires
                    -de <= hex <= de,
                    -de <= hey <= de,
                    HSCALE == 0x1_0000_0000i128;
            lemma_div_tz_bound((hex * HSCALE) as int, de as int, HSCALE as int);
            lemma_div_tz_bound((hey * HSCALE) as int, de as int, HSCALE as int);
        }
        let ehx: i128 = div_i(hex * HSCALE, de);
        let ehy: i128 = div_i(hey * HSCALE, de);
        proof {
            assert(ehx * c16 <= 0x1_0000_0000_0000_0000_0000_0000
                && -0x1_0000_0000_0000_0000_0000_0000 <= ehx * c16
                && ehy * c16 <= 0x1_0000_0000_0000_0000_0000_0000
                && -0x1_0000_0000_0000_0000_0000_0000 <= ehy * c16)
                by (nonlinear_arith)
                requires
                    -0x1_0000_0000 <= ehx <= 0x1_0000_0000,
                    -0x1_0000_0000 <= ehy <= 0x1_0000_0000,
                    0 <= c16 <= 0x100_0000_0000_0000;
        }
        let offx: i128 = ehx * c16 * 0x1_0000;
        let offy: i128 = ehy * c16 * 0x1_0000;
        Vec2 {
            x: Fx { raw: self.body_center.x.raw - offx },
            y: Fx { raw: self.body_center.y.raw - offy },
        }
    }
}

} // verus!
