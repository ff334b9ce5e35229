//! Procedural generation of the initial star system: one star and a number
//! of rocky and gas-giant planets, each placed on a circular orbit around
//! the star. Radii, densities, orbital distances, direction angles, orbit
//! direction and hues are drawn from a caller-supplied, seedable generator,
//! so runs are reproducible from a seed.

use vstd::prelude::*;
use crate::fixnum::Fx;
use crate::fixnum::Vec2;
use crate::fixnum::SCALE;
use crate::fixnum::HSCALE;
use crate::fixnum::div_tz;
use crate::fixnum::half_i;
use crate::fixnum::div_i;
use crate::fixnum::isqrt_u;
use crate::fixnum::lemma_div_tz_bound;
use crate::fixnum::lemma_div_tz_ordered;
use crate::fixnum::lemma_div_tz_odd;
use crate::fixnum::lemma_div_tz_exact;
use crate::fixnum::lemma_sqrt_ge;
use crate::entities::Body;
use crate::entities::CelestialObject;
use crate::entities::Spaceship;
use crate::entities::Hsl;
use crate::entities::body_fits;
use crate::entities::sep2h;
use crate::entities::norm2h;
use crate::entities::orbit_setup_ok;
use crate::entities::orbit_vel_x;
use crate::entities::orbit_vel_y;

verus! {

/// `(2/3) * 2 * pi` with 32 fractional bits: the stylized volume factor of
/// this system's mass formula `(2/3) * 2 * pi * radius^3 * density`.
pub const VOL_FACTOR: i128 = 17990716939;

/// The largest mass generation hands out; the stylized formula stays well
/// under it for every value in the sampling ranges.
pub const MASS_CAP: i128 = 0x20_0000;


/// The raw fixed-point value of `m` thousandths of a world unit; sampled
/// quantities are drawn on this milli grid.
pub open spec fn milli_fx(m: int) -> int {
    div_tz(m * (SCALE as int), 1000)
}

/// The stylized mass formula: `(2/3) * 2 * pi * radius^3 * density`,
/// computed in fixed point (narrowed scale) and truncated to an integer.
pub open spec fn mass_of(rad: int, dens: int) -> int {
    let hr = half_i(rad);
    let hd = half_i(dens);
    let v1 = div_tz((VOL_FACTOR as int) * hr, HSCALE as int);
    let v2 = div_tz(v1 * hr, HSCALE as int);
    let v3 = div_tz(v2 * hr, HSCALE as int);
    let mv = div_tz(v3 * hd, HSCALE as int);
    div_tz(mv, HSCALE as int)
}

/// The mass formula clamped into the representable range `[1, MASS_CAP]`;
/// within the sampling ranges the clamp never fires.
pub open spec fn mass_clamped(rad: int, dens: int) -> int {
    let m = mass_of(rad, dens);
    if m < 1 {
        1
    } else if m > MASS_CAP as int {
        MASS_CAP as int
    } else {
        m
    }
}


/// The stylized mass formula is monotone in radius and density over
/// nonnegative values.
proof fn lemma_mass_of_mono(r1: int, d1: int, r2: int, d2: int)
    requires
        0 <= r1 <= r2,
        0 <= d1 <= d2,
    ensures
        0 <= mass_of(r1, d1) <= mass_of(r2, d2),
{
    let hs = HSCALE as int;
    lemma_div_tz_ordered(r1, r2, hs);
    lemma_div_tz_ordered(d1, d2, hs);
    let hr1 = half_i(r1);
    let hr2 = half_i(r2);
    let hd1 = half_i(d1);
    let hd2 = half_i(d2);
    vstd::arithmetic::mul::lemma_mul_upper_bound(VOL_FACTOR as int, VOL_FACTOR as int, hr1, hr2);
    vstd::arithmetic::mul::lemma_mul_nonnegative(VOL_FACTOR as int, hr1);
    lemma_div_tz_ordered((VOL_FACTOR as int) * hr1, (VOL_FACTOR as int) * hr2, hs);
    let v11 = div_tz((VOL_FACTOR as int) * hr1, hs);
    let v12 = div_tz((VOL_FACTOR as int) * hr2, hs);
    vstd::arithmetic::mul::lemma_mul_upper_bound(v11, v12, hr1, hr2);
    vstd::arithmetic::mul::lemma_mul_nonnegative(v11, hr1);
    lemma_div_tz_ordered(v11 * hr1, v12 * hr2, hs);
    let v21 = div_tz(v11 * hr1, hs);
    let v22 = div_tz(v12 * hr2, hs);
    vstd::arithmetic::mul::lemma_mul_upper_bound(v21, v22, hr1, hr2);
    vstd::arithmetic::mul::lemma_mul_nonnegative(v21, hr1);
    lemma_div_tz_ordered(v21 * hr1, v22 * hr2, hs);
    let v31 = div_tz(v21 * hr1, hs);
    let v32 = div_tz(v22 * hr2, hs);
    vstd::arithmetic::mul::lemma_mul_upper_bound(v31, v32, hd1, hd2);
    vstd::arithmetic::mul::lemma_mul_nonnegative(v31, hd1);
    lemma_div_tz_ordered(v31 * hd1, v32 * hd2, hs);
    lemma_div_tz_ordered(div_tz(v31 * hd1, hs), div_tz(v32 * hd2, hs), hs);
}

proof fn lemma_mass_star_lo()
    ensures
        mass_of(milli_fx(100000), milli_fx(10)) == 41887,
{
    vstd::arithmetic::div_mod::lemma_fundamental_div_mod_converse(1844674407370955161600000, 1000, 1844674407370955161600, 0);
    vstd::arithmetic::div_mod::lemma_fundamental_div_mod_converse(184467440737095516160, 1000, 184467440737095516, 160);
    vstd::arithmetic::div_mod::lemma_fundamental_div_mod_converse(1844674407370955161600, 4294967296, 429496729600, 0);
    vstd::arithmetic::div_mod::lemma_fundamental_div_mod_converse(184467440737095516, 4294967296, 42949672, 4123168604);
    vstd::arithmetic::div_mod::lemma_fundamental_div_mod_converse(7726954088459822694400, 4294967296, 1799071693900, 0);
    vstd::arithmetic::div_mod::lemma_fundamental_div_mod_converse(772695408845982269440000, 4294967296, 179907169390000, 0);
    vstd::arithmetic::div_mod::lemma_fundamental_div_mod_converse(77269540884598226944000000, 4294967296, 17990716939000000, 0);
    vstd::arithmetic::div_mod::lemma_fundamental_div_mod_converse(772695391574894008000000, 4294967296, 179907165368761, 1732959744);
    vstd::arithmetic::div_mod::lemma_fundamental_div_mod_converse(179907165368761, 4294967296, 41887, 3870241209);
    assert(milli_fx(100000) == 1844674407370955161600);
    assert(milli_fx(10) == 184467440737095516);
    assert(half_i(1844674407370955161600) == 429496729600);
    assert(half_i(184467440737095516) == 42949672);
    assert(div_tz(17990716939int * 429496729600, HSCALE as int) == 1799071693900);
    assert(div_tz(1799071693900int * 429496729600, HSCALE as int) == 179907169390000);
    assert(div_tz(179907169390000int * 429496729600, HSCALE as int) == 17990716939000000);
    assert(div_tz(17990716939000000int * 42949672, HSCALE as int) == 179907165368761);
    assert(div_tz(179907165368761, HSCALE as int) == 41887);
    assert(mass_of(1844674407370955161600, 184467440737095516) == 41887);
}

proof fn lemma_mass_star_hi()
    ensures
        mass_of(milli_fx(200000), milli_fx(50)) == 1675516,
{
    vstd::arithmetic::div_mod::lemma_fundamental_div_mod_converse(3689348814741910323200000, 1000, 3689348814741910323200, 0);
    vstd::arithmetic::div_mod::lemma_fundamental_div_mod_converse(922337203685477580800, 1000, 922337203685477580, 800);
    vstd::arithmetic::div_mod::lemma_fundamental_div_mod_converse(3689348814741910323200, 4294967296, 858993459200, 0);
    vstd::arithmetic::div_mod::lemma_fundamental_div_mod_converse(922337203685477580, 4294967296, 214748364, 3435973836);
    vstd::arithmetic::div_mod::lemma_fundamental_div_mod_converse(15453908176919645388800, 4294967296, 3598143387800, 0);
    vstd::arithmetic::div_mod::lemma_fundamental_div_mod_converse(3090781635383929077760000, 4294967296, 719628677560000, 0);
    vstd::arithmetic::div_mod::lemma_fundamental_div_mod_converse(618156327076785815552000000, 4294967296, 143925735512000000, 0);
    vstd::arithmetic::div_mod::lemma_fundamental_div_mod_converse(30907816238698702368000000, 4294967296, 7196286748791742, 2963130368);
    vstd::arithmetic::div_mod::lemma_fundamental_div_mod_converse(7196286748791742, 4294967296, 1675516, 324867006);
    assert(milli_fx(200000) == 3689348814741910323200);
    assert(milli_fx(50) == 922337203685477580);
    assert(half_i(3689348814741910323200) == 858993459200);
    assert(half_i(922337203685477580) == 214748364);
    assert(div_tz(17990716939int * 858993459200, HSCALE as int) == 3598143387800);
    assert(div_tz(3598143387800int * 858993459200, HSCALE as int) == 719628677560000);
    assert(div_tz(719628677560000int * 858993459200, HSCALE as int) == 143925735512000000);
    assert(div_tz(143925735512000000int * 214748364, HSCALE as int) == 7196286748791742);
    assert(div_tz(7196286748791742, HSCALE as int) == 1675516);
    assert(mass_of(3689348814741910323200, 922337203685477580) == 1675516);
}

proof fn lemma_mass_rocky_lo()
    ensures
        mass_of(milli_fx(5000), milli_fx(100)) == 52,
{
    vstd::arithmetic::div_mod::lemma_fundamental_div_mod_converse(92233720368547758080000, 1000, 92233720368547758080, 0);
    vstd::arithmetic::div_mod::lemma_fundamental_div_mod_converse(1844674407370955161600, 1000, 1844674407370955161, 600);
    vstd::arithmetic::div_mod::lemma_fundamental_div_mod_converse(92233720368547758080, 4294967296, 21474836480, 0);
    vstd::arithmetic::div_mod::lemma_fundamental_div_mod_converse(1844674407370955161, 4294967296, 429496729, 2576980377);
    vstd::arithmetic::div_mod::lemma_fundamental_div_mod_converse(386347704422991134720, 4294967296, 89953584695, 0);
    vstd::arithmetic::div_mod::lemma_fundamental_div_mod_converse(1931738522114955673600, 4294967296, 449767923475, 0);
    vstd::arithmetic::div_mod::lemma_fundamental_div_mod_converse(9658692610574778368000, 4294967296, 2248839617375, 0);
    vstd::arithmetic::div_mod::lemma_fundamental_div_mod_converse(965869259708174066375, 4294967296, 224883961423, 1463444167);
    vstd::arithmetic::div_mod::lemma_fundamental_div_mod_converse(224883961423, 4294967296, 52, 1545662031);
    assert(milli_fx(5000) == 92233720368547758080);
    assert(milli_fx(100) == 1844674407370955161);
    assert(half_i(92233720368547758080) == 21474836480);
    assert(half_i(1844674407370955161) == 429496729);
    assert(div_tz(17990716939int * 21474836480, HSCALE as int) == 89953584695);
    assert(div_tz(89953584695int * 21474836480, HSCALE as int) == 449767923475);
    assert(div_tz(449767923475int * 21474836480, HSCALE as int) == 2248839617375);
    assert(div_tz(2248839617375int * 429496729, HSCALE as int) == 224883961423);
    assert(div_tz(224883961423, HSCALE as int) == 52);
    assert(mass_of(92233720368547758080, 1844674407370955161) == 52);
}

proof fn lemma_mass_rocky_hi()
    ensures
        mass_of(milli_fx(20000), milli_fx(1000)) == 33510,
{
    vstd::arithmetic::div_mod::lemma_fundamental_div_mod_converse(368934881474191032320000, 1000, 368934881474191032320, 0);
    vstd::arithmetic::div_mod::lemma_fundamental_div_mod_converse(18446744073709551616000, 1000, 18446744073709551616, 0);
    vstd::arithmetic::div_mod::lemma_fundamental_div_mod_converse(368934881474191032320, 4294967296, 85899345920, 0);
    vstd::arithmetic::div_mod::lemma_fundamental_div_mod_converse(18446744073709551616, 4294967296, 4294967296, 0);
    vstd::arithmetic::div_mod::lemma_fundamental_div_mod_converse(1545390817691964538880, 4294967296, 359814338780, 0);
    vstd::arithmetic::div_mod::lemma_fundamental_div_mod_converse(30907816353839290777600, 4294967296, 7196286775600, 0);
    vstd::arithmetic::div_mod::lemma_fundamental_div_mod_converse(618156327076785815552000, 4294967296, 143925735512000, 0);
    vstd::arithmetic::div_mod::lemma_fundamental_div_mod_converse(618156327076785815552000, 4294967296, 143925735512000, 0);
    vstd::arithmetic::div_mod::lemma_fundamental_div_mod_converse(143925735512000, 4294967296, 33510, 1381423040);
    assert(milli_fx(20000) == 368934881474191032320);
    assert(milli_fx(1000) == 18446744073709551616);
    assert(half_i(368934881474191032320) == 85899345920);
    assert(half_i(18446744073709551616) == 4294967296);
    assert(div_tz(17990716939int * 85899345920, HSCALE as int) == 359814338780);
    assert(div_tz(359814338780int * 85899345920, HSCALE as int) == 7196286775600);
    assert(div_tz(7196286775600int * 85899345920, HSCALE as int) == 143925735512000);
    assert(div_tz(143925735512000int * 4294967296, HSCALE as int) == 143925735512000);
    assert(div_tz(143925735512000, HSCALE as int) == 33510);
    assert(mass_of(368934881474191032320, 18446744073709551616) == 33510);
}

proof fn lemma_mass_gas_lo()
    ensures
        mass_of(milli_fx(20000), milli_fx(20)) == 670,
{
    vstd::arithmetic::div_mod::lemma_fundamental_div_mod_converse(368934881474191032320000, 1000, 368934881474191032320, 0);
    vstd::arithmetic::div_mod::lemma_fundamental_div_mod_converse(368934881474191032320, 1000, 368934881474191032, 320);
    vstd::arithmetic::div_mod::lemma_fundamental_div_mod_converse(368934881474191032320, 4294967296, 85899345920, 0);
    vstd::arithmetic::div_mod::lemma_fundamental_div_mod_converse(368934881474191032, 4294967296, 85899345, 3951369912);
    vstd::arithmetic::div_mod::lemma_fundamental_div_mod_converse(1545390817691964538880, 4294967296, 359814338780, 0);
    vstd::arithmetic::div_mod::lemma_fundamental_div_mod_converse(30907816353839290777600, 4294967296, 7196286775600, 0);
    vstd::arithmetic::div_mod::lemma_fundamental_div_mod_converse(618156327076785815552000, 4294967296, 143925735512000, 0);
    vstd::arithmetic::div_mod::lemma_fundamental_div_mod_converse(12363126409124039640000, 4294967296, 2878514679410, 2165064640);
    vstd::arithmetic::div_mod::lemma_fundamental_div_mod_converse(2878514679410, 4294967296, 670, 886591090);
    assert(milli_fx(20000) == 368934881474191032320);
    assert(milli_fx(20) == 368934881474191032);
    assert(half_i(368934881474191032320) == 85899345920);
    assert(half_i(368934881474191032) == 85899345);
    assert(div_tz(17990716939int * 85899345920, HSCALE as int) == 359814338780);
    assert(div_tz(359814338780int * 85899345920, HSCALE as int) == 7196286775600);
    assert(div_tz(7196286775600int * 85899345920, HSCALE as int) == 143925735512000);
    assert(div_tz(143925735512000int * 85899345, HSCALE as int) == 2878514679410);
    assert(div_tz(2878514679410, HSCALE as int) == 670);
    assert(mass_of(368934881474191032320, 368934881474191032) == 670);
}

proof fn lemma_mass_gas_hi()
    ensures
        mass_of(milli_fx(50000), milli_fx(100)) == 52359,
{
    vstd::arithmetic::div_mod::lemma_fundamental_div_mod_converse(922337203685477580800000, 1000, 922337203685477580800, 0);
    vstd::arithmetic::div_mod::lemma_fundamental_div_mod_converse(1844674407370955161600, 1000, 1844674407370955161, 600);
    vstd::arithmetic::div_mod::lemma_fundamental_div_mod_converse(922337203685477580800, 4294967296, 214748364800, 0);
    vstd::arithmetic::div_mod::lemma_fundamental_div_mod_converse(1844674407370955161, 4294967296, 429496729, 2576980377);
    vstd::arithmetic::div_mod::lemma_fundamental_div_mod_converse(3863477044229911347200, 4294967296, 899535846950, 0);
    vstd::arithmetic::div_mod::lemma_fundamental_div_mod_converse(193173852211495567360000, 4294967296, 44976792347500, 0);
    vstd::arithmetic::div_mod::lemma_fundamental_div_mod_converse(9658692610574778368000000, 4294967296, 2248839617375000, 0);
    vstd::arithmetic::div_mod::lemma_fundamental_div_mod_converse(965869259708174066375000, 4294967296, 224883961423340, 3155286360);
    vstd::arithmetic::div_mod::lemma_fundamental_div_mod_converse(224883961423340, 4294967296, 52359, 3768772076);
    assert(milli_fx(50000) == 922337203685477580800);
    assert(milli_fx(100) == 1844674407370955161);
    assert(half_i(922337203685477580800) == 214748364800);
    assert(half_i(1844674407370955161) == 429496729);
    assert(div_tz(17990716939int * 214748364800, HSCALE as int) == 899535846950);
    assert(div_tz(899535846950int * 214748364800, HSCALE as int) == 44976792347500);
    assert(div_tz(44976792347500int * 214748364800, HSCALE as int) == 2248839617375000);
    assert(div_tz(2248839617375000int * 429496729, HSCALE as int) == 224883961423340);
    assert(div_tz(224883961423340, HSCALE as int) == 52359);
    assert(mass_of(922337203685477580800, 1844674407370955161) == 52359);
}

#[verifier::external_type_specification]
#[verifier::external_body]
pub struct ExStdRng(rand::rngs::StdRng);

/// Relies on `rand::Rng::gen_range` on a `StdRng`: a uniformly distributed
/// value in `[lo, hi)`; it panics only on an empty range, which the
/// precondition excludes.
#[verifier::external_body]
fn rng_range(rng: &mut rand::rngs::StdRng, lo: u64, hi: u64) -> (r: u64)
    requires
        lo < hi,
    ensures
        lo <= r < hi,
{
    rand::Rng::gen_range(rng, lo..hi)
}

/// Relies on `rand::Rng::gen::<bool>` on a `StdRng`: a fair coin flip.
#[verifier::external_body]
fn rng_coin(rng: &mut rand::rngs::StdRng) -> bool {
    rand::Rng::gen::<bool>(rng)
}

/// The clamped stylized mass, computed in fixed point.
fn mass_from(rad: Fx, dens: Fx) -> (m: i128)
    requires
        0 <= rad.raw <= 0x400_0000_0000_0000_0000,
        0 <= dens.raw <= 2 * SCALE,
    ensures
        m as int == mass_clamped(rad.raw as int, dens.raw as int),
        1 <= m <= MASS_CAP,
{
    let hr: i128 = div_i(rad.raw, HSCALE);
    let hd: i128 = div_i(dens.raw, HSCALE);
    proof {
        lemma_div_tz_bound(rad.raw as int, HSCALE as int, 0x400_0000_0000);
        lemma_div_tz_ordered(0, rad.raw as int, HSCALE as int);
        lemma_div_tz_bound(dens.raw as int, HSCALE as int, 0x2_0000_0000);
        lemma_div_tz_ordered(0, dens.raw as int, HSCALE as int);
        crate::fixnum::lemma_mul_nn_bound(
            VOL_FACTOR as int,
            VOL_FACTOR as int,
            hr as int,
            0x400_0000_0000,
        );
        lemma_div_tz_bound((VOL_FACTOR * hr) as int, HSCALE as int, 0x2000_0000_0000);
        lemma_div_tz_ordered(0, (VOL_FACTOR * hr) as int, HSCALE as int);
    }
    let v1: i128 = div_i(VOL_FACTOR * hr, HSCALE);
    proof {
        crate::fixnum::lemma_mul_nn_bound(v1 as int, 0x2000_0000_0000, hr as int, 0x400_0000_0000);
        lemma_div_tz_bound((v1 * hr) as int, HSCALE as int, 0x80_0000_0000_0000);
        lemma_div_tz_ordered(0, (v1 * hr) as int, HSCALE as int);
    }
    let v2: i128 = div_i(v1 * hr, HSCALE);
    proof {
        crate::fixnum::lemma_mul_nn_bound(v2 as int, 0x80_0000_0000_0000, hr as int, 0x400_0000_0000);
        lemma_div_tz_bound((v2 * hr) as int, HSCALE as int, 0x2_0000_0000_0000_0000);
        lemma_div_tz_ordered(0, (v2 * hr) as int, HSCALE as int);
    }
    let v3: i128 = div_i(v2 * hr, HSCALE);
    proof {
        crate::fixnum::lemma_mul_nn_bound(v3 as int, 0x2_0000_0000_0000_0000, hd as int, 0x2_0000_0000);
        lemma_div_tz_bound((v3 * hd) as int, HSCALE as int, 0x4_0000_0000_0000_0000);
        lemma_div_tz_ordered(0, (v3 * hd) as int, HSCALE as int);
    }
    let mv: i128 = div_i(v3 * hd, HSCALE);
    proof {
        lemma_div_tz_bound(mv as int, HSCALE as int, 0x4_0000_0000);
        lemma_div_tz_ordered(0, mv as int, HSCALE as int);
    }
    let m0: i128 = div_i(mv, HSCALE);
    if m0 < 1 {
        1
    } else if m0 > MASS_CAP {
        MASS_CAP
    } else {
        m0
    }
}

/// A random direction of unit length at the narrowed scale, drawn
/// uniformly by rejection from an annulus of the unit disc and normalized;
/// its squared norm lands within 2^-27 of one.
fn random_unit_dir(rng: &mut rand::rngs::StdRng) -> (r: (i128, i128))
    ensures
        -(HSCALE as int) <= r.0 <= HSCALE as int,
        -(HSCALE as int) <= r.1 <= HSCALE as int,
        (SCALE as int) - 0x20_0000_0000 <= r.0 * r.0 + r.1 * r.1 <= (SCALE as int)
            + 0x20_0000_0000,
{
    let mut tries: u64 = 0;
    while tries < 64
        invariant
            tries <= 64,
        decreases 64 - tries,
    {
        let xs: u64 = rng_range(rng, 0, 0x2_0000_0001);
        let ys: u64 = rng_range(rng, 0, 0x2_0000_0001);
        let x: i128 = xs as i128 - 0x1_0000_0000;
        let y: i128 = ys as i128 - 0x1_0000_0000;
        proof {
            assert(x * x >= 0 && x * x <= 0x1_0000_0000_0000_0000
                && y * y >= 0 && y * y <= 0x1_0000_0000_0000_0000)
                by (nonlinear_arith)
                requires
                    -0x1_0000_0000 <= x <= 0x1_0000_0000,
                    -0x1_0000_0000 <= y <= 0x1_0000_0000;
        }
        let n2: i128 = x * x + y * y;
        if n2 >= 0x4000_0000_0000_0000 && n2 <= 0x1_0000_0000_0000_0000 {
            let d: i128 = isqrt_u(n2 as u128) as i128;
            proof {
                lemma_sqrt_ge(n2 as int, 0x8000_0000);
                let ax: int = if x >= 0 { x as int } else { -(x as int) };
                let ay: int = if y >= 0 { y as int } else { -(y as int) };
                assert(ax * ax <= n2 as int && ay * ay <= n2 as int) by (nonlinear_arith)
                    requires
                        n2 as int == (x as int) * (x as int) + (y as int) * (y as int),
                        ax == (if x >= 0 { x as int } else { -(x as int) }),
                        ay == (if y >= 0 { y as int } else { -(y as int) });
                lemma_sqrt_ge(n2 as int, ax);
                lemma_sqrt_ge(n2 as int, ay);
                assert(x * HSCALE <= d * HSCALE && -(d * HSCALE) <= x * HSCALE
                    && y * HSCALE <= d * HSCALE && -(d * HSCALE) <= y * HSCALE)
                    by (nonlinear_arith)
                    requires
                        -d <= x <= d,
                        -d <= y <= d,
                        HSCALE == 0x1_0000_0000i128;
                lemma_div_tz_bound((x * HSCALE) as int, d as int, HSCALE as int);
                lemma_div_tz_bound((y * HSCALE) as int, d as int, HSCALE as int);
            }
            let ux: i128 = div_i(x * HSCALE, d);
            let uy: i128 = div_i(y * HSCALE, d);
            proof {
                assert(ux * ux >= 0 && ux * ux <= 0x1_0000_0000_0000_0000
                    && uy * uy >= 0 && uy * uy <= 0x1_0000_0000_0000_0000)
                    by (nonlinear_arith)
                    requires
                        -0x1_0000_0000 <= ux <= 0x1_0000_0000,
                        -0x1_0000_0000 <= uy <= 0x1_0000_0000;
            }
            let un2: i128 = ux * ux + uy * uy;
            if un2 >= SCALE - 0x20_0000_0000 && un2 <= SCALE + 0x20_0000_0000 {
                return (ux, uy);
            }
        }
        tries = tries + 1;
    }
    (HSCALE, 0)
}


/// The drawn orbital distance of `ov` thousandths of a world unit, at the
/// narrowed scale.
pub open spec fn orbit_dist32(ov: int) -> int {
    half_i(milli_fx(ov))
}

/// The body standing at `ppos` sits at the drawn orbital distance from the
/// star at `spos`: the measured squared separation is the drawn distance
/// squared, within one part in 2^25 (the slack of the direction draw and
/// the narrowing truncations).
pub open spec fn at_orbit_distance(ppos: Vec2, spos: Vec2, ov: int) -> bool {
    let d32 = orbit_dist32(ov);
    let q = norm2h(ppos.x.raw - spos.x.raw, ppos.y.raw - spos.y.raw);
    &&& d32 * d32 - div_tz(d32 * d32, 0x200_0000) <= q
    &&& q <= d32 * d32 + div_tz(d32 * d32, 0x200_0000)
}

/// What generation promises of a planet of a class, around the star `sun`:
/// its orbital distance, radius, density (through the stylized mass
/// formula) and hue come from the class's ranges; it is representable and
/// far enough from the star to interact; and its velocity is the
/// circular-orbit velocity for its position, in one of the two senses.
pub open spec fn planet_of_class(
    c: CelestialObject,
    sun: Body,
    orbit_lo: int,
    orbit_hi: int,
    rad_lo: int,
    rad_hi: int,
    dens_lo: int,
    dens_hi: int,
    hue_lo: int,
    hue_hi: int,
) -> bool {
    &&& body_fits(c.body)
    &&& 1 <= c.body.mass <= MASS_CAP as int
    &&& sep2h(sun, c.body) >= 0x400_0000_0000_0000_0000
    &&& -0x1000_0000_0000_0000_0000 <= c.body.pos.x.raw - sun.pos.x.raw
        <= 0x1000_0000_0000_0000_0000
    &&& -0x1000_0000_0000_0000_0000 <= c.body.pos.y.raw - sun.pos.y.raw
        <= 0x1000_0000_0000_0000_0000
    &&& hue_lo <= c.color.hue_milli < hue_hi
    &&& c.color.sat_milli == 68_000
    &&& c.color.light_milli == 40_000
    &&& exists|ov: int|
        orbit_lo <= ov < orbit_hi && #[trigger] at_orbit_distance(c.body.pos, sun.pos, ov)
    &&& exists|rm: int| rad_lo <= rm < rad_hi && c.rad.raw == #[trigger] milli_fx(rm)
    &&& exists|dm: int|
        dens_lo <= dm < dens_hi && c.body.mass == mass_of(
            c.rad.raw as int,
            #[trigger] milli_fx(dm),
        )
    &&& exists|cw: bool|
        c.body.vel.x.raw == orbit_vel_x(sun, c.body.pos, cw) && c.body.vel.y.raw
            == orbit_vel_y(sun, c.body.pos, cw)
}

/// One random planet: an orbital distance, a direction around the star, an
/// orbit sense, a radius, a density (hence a mass) and a hue, each drawn
/// from the given ranges, placed on a circular orbit around `sun`. If the
/// measured separation fell outside the stated band around the drawn
/// distance (which the annulus sampling never produces), the planet is
/// placed on the x axis at exactly the drawn distance instead.
fn sample_planet(
    rng: &mut rand::rngs::StdRng,
    sun: &CelestialObject,
    orbit_lo: u64,
    orbit_hi: u64,
    rad_lo: u64,
    rad_hi: u64,
    dens_lo: u64,
    dens_hi: u64,
    hue_lo: u64,
    hue_hi: u64,
) -> (r: CelestialObject)
    requires
        1 <= sun.body.mass <= MASS_CAP as int,
        -0x8_0000_0000_0000_0000_0000 <= sun.body.pos.x.raw <= 0x8_0000_0000_0000_0000_0000,
        -0x8_0000_0000_0000_0000_0000 <= sun.body.pos.y.raw <= 0x8_0000_0000_0000_0000_0000,
        500_000 <= orbit_lo < orbit_hi <= 4_000_000,
        0 < rad_lo < rad_hi <= 1_000_000,
        0 < dens_lo < dens_hi <= 2_000,
        hue_lo < hue_hi <= 360_000,
        1 <= mass_of(milli_fx(rad_lo as int), milli_fx(dens_lo as int)),
        mass_of(milli_fx(rad_hi as int), milli_fx(dens_hi as int)) <= MASS_CAP as int,
    ensures
        body_fits(r.body),
        planet_of_class(
            r,
            sun.body,
            orbit_lo as int,
            orbit_hi as int,
            rad_lo as int,
            rad_hi as int,
            dens_lo as int,
            dens_hi as int,
            hue_lo as int,
            hue_hi as int,
        ),
{
    let ov = rng_range(rng, orbit_lo, orbit_hi);
    let orbit = Fx::from_milli(ov as i128);
    proof {
        lemma_div_tz_ordered(500_000 * SCALE, ov as int * SCALE, 1000);
        lemma_div_tz_exact(500 * SCALE, 1000);
        assert(500_000 * SCALE == (500 * SCALE) * 1000);
        lemma_div_tz_ordered(ov as int * SCALE, 4_000_000 * SCALE, 1000);
        lemma_div_tz_exact(4000 * SCALE, 1000);
        assert(4_000_000 * SCALE == (4000 * SCALE) * 1000);
        lemma_div_tz_ordered(500 * SCALE, orbit.raw as int, HSCALE as int);
        lemma_div_tz_exact(500 * HSCALE, HSCALE as int);
        assert(500 * SCALE == (500 * HSCALE) * HSCALE);
        lemma_div_tz_ordered(orbit.raw as int, 4000 * SCALE, HSCALE as int);
        lemma_div_tz_exact(4000 * HSCALE, HSCALE as int);
        assert(4000 * SCALE == (4000 * HSCALE) * HSCALE);
    }
    let ov32: i128 = div_i(orbit.raw, HSCALE);
    let (ux, uy) = random_unit_dir(rng);
    proof {
        assert(ov32 * ux <= 0x1000_0000_0000_0000_0000
            && -0x1000_0000_0000_0000_0000 <= ov32 * ux
            && ov32 * uy <= 0x1000_0000_0000_0000_0000
            && -0x1000_0000_0000_0000_0000 <= ov32 * uy) by (nonlinear_arith)
            requires
                0 <= ov32 <= 0x1000_0000_0000,
                -0x1_0000_0000 <= ux <= 0x1_0000_0000,
                -0x1_0000_0000 <= uy <= 0x1_0000_0000;
    }
    let dx: i128 = ov32 * ux;
    let dy: i128 = ov32 * uy;
    let cand = Vec2::new(
        Fx { raw: sun.body.pos.x.raw + dx },
        Fx { raw: sun.body.pos.y.raw + dy },
    );
    let rxc: i128 = sun.body.pos.x.raw - cand.x.raw;
    let ryc: i128 = sun.body.pos.y.raw - cand.y.raw;
    let hrx: i128 = div_i(rxc, HSCALE);
    let hry: i128 = div_i(ryc, HSCALE);
    proof {
        lemma_div_tz_bound(rxc as int, HSCALE as int, 0x1000_0000_0000);
        lemma_div_tz_bound(ryc as int, HSCALE as int, 0x1000_0000_0000);
        assert(hrx * hrx >= 0 && hrx * hrx <= 0x1_0000_0000_0000_0000_0000_0000
            && hry * hry >= 0 && hry * hry <= 0x1_0000_0000_0000_0000_0000_0000)
            by (nonlinear_arith)
            requires
                -0x1000_0000_0000 <= hrx <= 0x1000_0000_0000,
                -0x1000_0000_0000 <= hry <= 0x1000_0000_0000;
    }
    let qc: i128 = hrx * hrx + hry * hry;
    proof {
        assert(ov32 * ov32 >= 0x1_0000_0000_0000_0000_0000
            && ov32 * ov32 <= 0x100_0000_0000_0000_0000_0000) by (nonlinear_arith)
            requires 0x100_0000_0000 <= ov32 <= 0x1000_0000_0000;
    }
    let q_exact: i128 = ov32 * ov32;
    proof {
        lemma_div_tz_bound(q_exact as int, 0x200_0000, 0x8000_0000_0000_0000);
        lemma_div_tz_ordered(0, q_exact as int, 0x200_0000);
    }
    let tol: i128 = div_i(q_exact, 0x200_0000);
    let pos: Vec2;
    if qc >= q_exact - tol && qc <= q_exact + tol {
        pos = cand;
        proof {
            assert(norm2h(
                sun.body.pos.x.raw - pos.x.raw,
                sun.body.pos.y.raw - pos.y.raw,
            ) == qc as int);
        }
    } else {
        proof {
            lemma_div_tz_exact(ov32 as int, HSCALE as int);
            lemma_div_tz_odd(ov32 as int * HSCALE, HSCALE as int);
            vstd::arithmetic::div_mod::lemma_div_of0(HSCALE as int);
            assert((-ov32) * (-ov32) == ov32 * ov32) by (nonlinear_arith);
        }
        pos = Vec2::new(Fx { raw: sun.body.pos.x.raw + ov32 * HSCALE }, sun.body.pos.y);
        proof {
            assert(sun.body.pos.x.raw - pos.x.raw == -(ov32 * HSCALE));
            assert(half_i(sun.body.pos.x.raw - pos.x.raw) == -(ov32 as int));
            assert(half_i(sun.body.pos.y.raw - pos.y.raw) == 0);
            assert((-(ov32 as int)) * (-(ov32 as int)) == ov32 * ov32) by (nonlinear_arith);
            assert(norm2h(
                sun.body.pos.x.raw - pos.x.raw,
                sun.body.pos.y.raw - pos.y.raw,
            ) == ov32 * ov32);
        }
    }
    proof {
        let qp = norm2h(sun.body.pos.x.raw - pos.x.raw, sun.body.pos.y.raw - pos.y.raw);
        assert(q_exact - tol <= qp <= q_exact + tol);
        assert(qp >= 0x400_0000_0000_0000_0000);
        assert(sun.body.mass * sun.body.mass * 0x1_0000_0000 <= 0x400_0000_0000_0000_0000)
            by (nonlinear_arith)
            requires 1 <= sun.body.mass <= 0x20_0000;
        assert(orbit_setup_ok(sun.body, pos));
    }
    let clockwise = rng_coin(rng);
    let rm = rng_range(rng, rad_lo, rad_hi);
    let rad = Fx::from_milli(rm as i128);
    let dm = rng_range(rng, dens_lo, dens_hi);
    let dens = Fx::from_milli(dm as i128);
    proof {
        lemma_div_tz_ordered(0, rm as int * SCALE, 1000);
        lemma_div_tz_ordered(rm as int * SCALE, 1_000_000 * SCALE, 1000);
        lemma_div_tz_exact(1000 * SCALE, 1000);
        assert(1_000_000 * SCALE == (1000 * SCALE) * 1000);
        lemma_div_tz_ordered(0, dm as int * SCALE, 1000);
        lemma_div_tz_ordered(dm as int * SCALE, 2_000 * SCALE, 1000);
        lemma_div_tz_exact(2 * SCALE, 1000);
        assert(2_000 * SCALE == (2 * SCALE) * 1000);
    }
    let mass = mass_from(rad, dens);
    let hue = rng_range(rng, hue_lo, hue_hi);
    let color = Hsl { hue_milli: hue as u32, sat_milli: 68_000, light_milli: 40_000 };
    let body = Body::new_in_orbit(&sun.body, pos, clockwise, mass);
    proof {
        crate::entities::lemma_norm2h_even(
            sun.body.pos.x.raw - pos.x.raw,
            sun.body.pos.y.raw - pos.y.raw,
        );
        assert(rad.raw == milli_fx(rm as int));
        assert(dens.raw == milli_fx(dm as int));
        lemma_div_tz_ordered(rad_lo as int * SCALE, rm as int * SCALE, 1000);
        lemma_div_tz_ordered(rm as int * SCALE, rad_hi as int * SCALE, 1000);
        lemma_div_tz_ordered(dens_lo as int * SCALE, dm as int * SCALE, 1000);
        lemma_div_tz_ordered(dm as int * SCALE, dens_hi as int * SCALE, 1000);
        lemma_mass_of_mono(
            milli_fx(rad_lo as int),
            milli_fx(dens_lo as int),
            rad.raw as int,
            dens.raw as int,
        );
        lemma_mass_of_mono(
            rad.raw as int,
            dens.raw as int,
            milli_fx(rad_hi as int),
            milli_fx(dens_hi as int),
        );
        assert(mass as int == mass_of(rad.raw as int, milli_fx(dm as int)));
        assert(body.vel.x.raw == orbit_vel_x(sun.body, pos, clockwise));
        assert(body.vel.y.raw == orbit_vel_y(sun.body, pos, clockwise));
        assert(orbit_dist32(ov as int) == ov32 as int);
        assert(at_orbit_distance(pos, sun.body.pos, ov as int));
    }
    let planet = CelestialObject { body, rad, color };
    proof {
        assert(planet_of_class(
            planet,
            sun.body,
            orbit_lo as int,
            orbit_hi as int,
            rad_lo as int,
            rad_hi as int,
            dens_lo as int,
            dens_hi as int,
            hue_lo as int,
            hue_hi as int,
        ));
    }
    planet
}

/// A random star: radius and density drawn from the star ranges, the mass
/// from the stylized volume formula, standing at the origin at rest, with
/// the fixed sun colour.
pub fn random_star(rng: &mut rand::rngs::StdRng) -> (r: CelestialObject)
    ensures
        r.body.pos.x.raw == 0,
        r.body.pos.y.raw == 0,
        r.body.vel.x.raw == 0,
        r.body.vel.y.raw == 0,
        1 <= r.body.mass <= MASS_CAP as int,
        body_fits(r.body),
        r.color == (Hsl { hue_milli: 70_000u32, sat_milli: 100_000u32, light_milli: 90_000u32 }),
        exists|rm: int, dm: int|
            {
                &&& 100_000 <= rm < 200_000
                &&& 10 <= dm < 50
                &&& r.rad.raw == #[trigger] milli_fx(rm)
                &&& r.body.mass == mass_of(r.rad.raw as int, #[trigger] milli_fx(dm))
            },
{
    let rm = rng_range(rng, 100_000, 200_000);
    let dm = rng_range(rng, 10, 50);
    let rad = Fx::from_milli(rm as i128);
    let dens = Fx::from_milli(dm as i128);
    proof {
        lemma_div_tz_ordered(0, rm as int * SCALE, 1000);
        lemma_div_tz_ordered(rm as int * SCALE, 1_000_000 * SCALE, 1000);
        lemma_div_tz_exact(1000 * SCALE, 1000);
        assert(1_000_000 * SCALE == (1000 * SCALE) * 1000);
        lemma_div_tz_ordered(0, dm as int * SCALE, 1000);
        lemma_div_tz_ordered(dm as int * SCALE, 2_000 * SCALE, 1000);
        lemma_div_tz_exact(2 * SCALE, 1000);
        assert(2_000 * SCALE == (2 * SCALE) * 1000);
    }
    let mass = mass_from(rad, dens);
    let body = Body::new(Vec2::zero(), Vec2::zero(), mass);
    proof {
        assert(rad.raw == milli_fx(rm as int));
        assert(dens.raw == milli_fx(dm as int));
        lemma_mass_star_lo();
        lemma_mass_star_hi();
        lemma_div_tz_ordered(100_000 * SCALE, rm as int * SCALE, 1000);
        lemma_div_tz_ordered(rm as int * SCALE, 200_000 * SCALE, 1000);
        lemma_div_tz_ordered(10 * SCALE, dm as int * SCALE, 1000);
        lemma_div_tz_ordered(dm as int * SCALE, 50 * SCALE, 1000);
        lemma_mass_of_mono(milli_fx(100_000), milli_fx(10), rad.raw as int, dens.raw as int);
        lemma_mass_of_mono(rad.raw as int, dens.raw as int, milli_fx(200_000), milli_fx(50));
        assert(mass as int == mass_of(rad.raw as int, milli_fx(dm as int)));
    }
    CelestialObject {
        body,
        rad,
        color: Hsl { hue_milli: 70_000, sat_milli: 100_000, light_milli: 90_000 },
    }
}

/// A random rocky planet orbiting `sun`: the small-radius, high-density
/// class on a near orbit, with a hue from the low band.
pub fn random_rocky_planet(rng: &mut rand::rngs::StdRng, sun: &CelestialObject) -> (r:
    CelestialObject)
    requires
        1 <= sun.body.mass <= MASS_CAP as int,
        -0x8_0000_0000_0000_0000_0000 <= sun.body.pos.x.raw <= 0x8_0000_0000_0000_0000_0000,
        -0x8_0000_0000_0000_0000_0000 <= sun.body.pos.y.raw <= 0x8_0000_0000_0000_0000_0000,
    ensures
        body_fits(r.body),
        planet_of_class(r, sun.body, 500_000, 2_000_000, 5_000, 20_000, 100, 1_000, 0, 150_000),
{
    proof {
        lemma_mass_rocky_lo();
        lemma_mass_rocky_hi();
    }
    sample_planet(rng, sun, 500_000, 2_000_000, 5_000, 20_000, 100, 1_000, 0, 150_000)
}

/// A random gas giant orbiting `sun`: the large-radius, low-density class
/// on a far orbit, with a hue from the high band.
pub fn random_gas_giant_planet(rng: &mut rand::rngs::StdRng, sun: &CelestialObject) -> (r:
    CelestialObject)
    requires
        1 <= sun.body.mass <= MASS_CAP as int,
        -0x8_0000_0000_0000_0000_0000 <= sun.body.pos.x.raw <= 0x8_0000_0000_0000_0000_0000,
        -0x8_0000_0000_0000_0000_0000 <= sun.body.pos.y.raw <= 0x8_0000_0000_0000_0000_0000,
    ensures
        body_fits(r.body),
        planet_of_class(
            r,
            sun.body,
            2_000_000,
            4_000_000,
            20_000,
            50_000,
            20,
            100,
            150_000,
            320_000,
        ),
{
    proof {
        lemma_mass_gas_lo();
        lemma_mass_gas_hi();
    }
    sample_planet(rng, sun, 2_000_000, 4_000_000, 20_000, 50_000, 20, 100, 150_000, 320_000)
}

/// The initial scene: four rocky planets and four gas giants around a
/// random star (the star stands last in the registry, as the driver
/// expects), and the player craft on a clockwise circular orbit at
/// distance 250 from the star.
pub fn random_system(rng: &mut rand::rngs::StdRng) -> (r: (Vec<CelestialObject>, Spaceship))
    ensures
        r.0@.len() == 9,
        forall|k: int| 0 <= k < 9 ==> body_fits(#[trigger] r.0@[k].body),
        forall|k: int|
            0 <= k < 4 ==> planet_of_class(
                #[trigger] r.0@[k],
                r.0@[8].body,
                500_000,
                2_000_000,
                5_000,
                20_000,
                100,
                1_000,
                0,
                150_000,
            ),
        forall|k: int|
            4 <= k < 8 ==> planet_of_class(
                #[trigger] r.0@[k],
                r.0@[8].body,
                2_000_000,
                4_000_000,
                20_000,
                50_000,
                20,
                100,
                150_000,
                320_000,
            ),
        r.0@[8].body.pos.x.raw == 0,
        r.0@[8].body.pos.y.raw == 0,
        r.1.body.mass == 1,
        r.1.body.pos.x.raw == 250 * (SCALE as int),
        r.1.body.pos.y.raw == 0,
        r.1.rot.raw == 0,
        body_fits(r.1.body),
        r.1.body.vel.x.raw == orbit_vel_x(r.0@[8].body, r.1.body.pos, true),
        r.1.body.vel.y.raw == orbit_vel_y(r.0@[8].body, r.1.body.pos, true),
{
    let sun = random_star(rng);
    let mut bodies: Vec<CelestialObject> = Vec::new();
    let mut k: usize = 0;
    while k < 4
        invariant
            k <= 4,
            bodies@.len() == k,
            forall|i: int| 0 <= i < k ==> body_fits(#[trigger] bodies@[i].body),
            forall|i: int|
                0 <= i < k ==> planet_of_class(
                    #[trigger] bodies@[i],
                    sun.body,
                    500_000,
                    2_000_000,
                    5_000,
                    20_000,
                    100,
                    1_000,
                    0,
                    150_000,
                ),
            sun.body.pos.x.raw == 0,
            sun.body.pos.y.raw == 0,
            1 <= sun.body.mass <= MASS_CAP as int,
        decreases 4 - k,
    {
        let p = random_rocky_planet(rng, &sun);
        bodies.push(p);
        k = k + 1;
    }
    let mut k2: usize = 0;
    while k2 < 4
        invariant
            k2 <= 4,
            bodies@.len() == 4 + k2,
            forall|i: int| 0 <= i < 4 + k2 ==> body_fits(#[trigger] bodies@[i].body),
            forall|i: int|
                0 <= i < 4 ==> planet_of_class(
                    #[trigger] bodies@[i],
                    sun.body,
                    500_000,
                    2_000_000,
                    5_000,
                    20_000,
                    100,
                    1_000,
                    0,
                    150_000,
                ),
            forall|i: int|
                4 <= i < 4 + k2 ==> planet_of_class(
                    #[trigger] bodies@[i],
                    sun.body,
                    2_000_000,
                    4_000_000,
                    20_000,
                    50_000,
                    20,
                    100,
                    150_000,
                    320_000,
                ),
            sun.body.pos.x.raw == 0,
            sun.body.pos.y.raw == 0,
            1 <= sun.body.mass <= MASS_CAP as int,
        decreases 4 - k2,
    {
        let p = random_gas_giant_planet(rng, &sun);
        bodies.push(p);
        k2 = k2 + 1;
    }
    let ppos = Vec2::new(Fx::from_int(250), Fx::zero());
    proof {
        lemma_div_tz_exact(250 * HSCALE, HSCALE as int);
        assert(250 * SCALE == (250 * HSCALE) * HSCALE);
        lemma_div_tz_odd(250 * SCALE, HSCALE as int);
        vstd::arithmetic::div_mod::lemma_div_of0(HSCALE as int);
        assert((-(250 * (HSCALE as int))) * (-(250 * (HSCALE as int))) == 62500 * (SCALE as int))
            by (nonlinear_arith)
            requires HSCALE == 0x1_0000_0000i128, SCALE == 0x1_0000_0000_0000_0000i128;
        assert(sun.body.mass * sun.body.mass * 0x1_0000_0000 <= 62500 * (SCALE as int))
            by (nonlinear_arith)
            requires 1 <= sun.body.mass <= 0x20_0000, SCALE == 0x1_0000_0000_0000_0000i128;
        assert(orbit_setup_ok(sun.body, ppos));
    }
    let player = Spaceship::new_in_orbit(&sun, ppos, true, 1);
    bodies.push(sun);
    (bodies, player)
}

} // verus!
