use vstd::prelude::*;
use vstd::arithmetic::div_mod::{
    lemma_div_is_ordered, lemma_div_multiples_vanish, lemma_div_pos_is_pos,
};
use crate::voxel::Voxel;
use crate::world::Chunk;

verus! {

/// Largest world coordinate the height function accepts; keeps every
/// intermediate product inside a machine word.
pub const COORD_LIMIT: u64 = 1000000000;

/// The rising arch of the sine wave on [0, pi], as a rational approximation
/// in fixed-point arithmetic: the angle is in milliradians (0 to 3141) and
/// the result is the sine scaled by 1000.
pub open spec fn spec_sin_arch(t: int) -> int
    recommends
        0 <= t <= 3141,
{
    16000 * t * (3141 - t) / (49329405 - 4 * t * (3141 - t))
}

/// Sine of an angle in milliradians, scaled by 1000: the angle is reduced
/// modulo one turn (6283) and the second half-turn mirrors the first.
pub open spec fn spec_sin_milli(a: int) -> int {
    let r = a % 6283;
    if r <= 3141 {
        spec_sin_arch(r)
    } else {
        -spec_sin_arch(r - 3141)
    }
}

/// Cosine of an angle in milliradians, scaled by 1000: sine shifted by a
/// quarter turn.
pub open spec fn spec_cos_milli(a: int) -> int {
    spec_sin_milli(a + 1571)
}

/// Terrain height over world column (x, z) in micro-units (one voxel of
/// height is 1000000): three additive sinusoidal terms - a coarse term of
/// independent waves in x and z, a medium diagonal term, and a fine detail
/// term - over a constant offset, clamped to be non-negative.
pub open spec fn spec_height_micro(x: int, z: int) -> int {
    let coarse = spec_sin_milli(x * 50) + spec_cos_milli(z * 50);
    let medium = spec_sin_milli((x + z) * 20);
    let detail = spec_cos_milli(x * 140) * spec_sin_milli(z * 140);
    let h = coarse * 4500 + medium * 7500 + detail * 2 + 14000000;
    if h < 0 {
        0
    } else {
        h
    }
}

/// The whole-voxel target height of world column (x, z): the height rounded
/// down to voxels, capped at `max_h`.
pub open spec fn spec_target_height(x: int, z: int, max_h: int) -> int {
    let t = spec_height_micro(x, z) / 1000000;
    if t > max_h {
        max_h
    } else {
        t
    }
}

/// Whether generation makes local voxel (x, y, z) of the chunk at lattice
/// coordinate (cx, cy, cz) solid: its world height lies at or below its
/// column's clamped target height.
pub open spec fn gen_solid(
    cx: int, cy: int, cz: int,
    x: int, y: int, z: int,
    world_dim: int, e: int,
) -> bool {
    cy * e + y <= spec_target_height(cx * e + x, cz * e + z, world_dim * e - 1)
}

/// The sine arch stays within [0, 1000]; its parabolic factor and the
/// rational form the executable code computes are bounded and equal to it.
proof fn lemma_sin_arch_bounds(t: int)
    requires
        0 <= t <= 3141,
    ensures
        0 <= t * (3141 - t),
        t * (3141 - t) <= 2466470,
        0 <= spec_sin_arch(t) <= 1000,
        spec_sin_arch(t) == 16000 * (t * (3141 - t)) / (49329405 - 4 * (t * (3141 - t))),
{
    let u = t * (3141 - t);
    assert(0 <= u && u <= 2466470
        && 16000 * t * (3141 - t) == 16000 * u
        && 4 * t * (3141 - t) == 4 * u
        && 16000 * u <= 1000 * (49329405 - 4 * u)) by (nonlinear_arith)
        requires
            0 <= t <= 3141,
            u == t * (3141 - t);
    let num = 16000 * u;
    let den = 49329405 - 4 * u;
    lemma_div_pos_is_pos(num, den);
    lemma_div_is_ordered(num, 1000 * den, den);
    lemma_div_multiples_vanish(1000, den);
}

/// A product of two values below 2^32 fits in a 64-bit word.
proof fn lemma_u32_mul_fits(a: int, b: int)
    by (nonlinear_arith)
    requires
        0 <= a < 0x100000000,
        0 <= b < 0x100000000,
    ensures
        0 <= a * b,
        a * b <= 0xfffffffe00000001,
        a >= 1 && b >= 1 ==> a * b >= 1,
{
}

/// Within a row of length e, cell i of row c lies before row c + 1 starts.
proof fn lemma_step_bound(c: int, i: int, e: int)
    by (nonlinear_arith)
    requires
        0 <= c,
        0 <= i < e,
    ensures
        0 <= c * e + i,
        c * e + i < (c + 1) * e,
{
}

/// The sine arch evaluated in machine integers.
fn sin_arch(t: u64) -> (v: i64)
    requires
        t <= 3141,
    ensures
        v == spec_sin_arch(t as int),
        0 <= v <= 1000,
{
    proof {
        lemma_sin_arch_bounds(t as int);
    }
    let u: u64 = t * (3141 - t);
    let num: u64 = 16000 * u;
    let den: u64 = 49329405 - 4 * u;
    (num / den) as i64
}

/// Sine of an angle in milliradians, scaled by 1000.
fn sin_milli(a: u64) -> (v: i64)
    ensures
        v == spec_sin_milli(a as int),
        -1000 <= v <= 1000,
{
    let r = a % 6283;
    if r <= 3141 {
        sin_arch(r)
    } else {
        -sin_arch(r - 3141)
    }
}

/// Cosine of an angle in milliradians, scaled by 1000.
fn cos_milli(a: u64) -> (v: i64)
    requires
        a + 1571 <= u64::MAX,
    ensures
        v == spec_cos_milli(a as int),
        -1000 <= v <= 1000,
{
    sin_milli(a + 1571)
}

/// Terrain height over world column (x, z) in micro-units. Deterministic -
/// the result is a pure function of the coordinates - and never negative.
pub fn height_micro(x: u64, z: u64) -> (h: i64)
    requires
        x <= COORD_LIMIT,
        z <= COORD_LIMIT,
    ensures
        h == spec_height_micro(x as int, z as int),
        h >= 0,
{
    let s1 = sin_milli(x * 50);
    let c1 = cos_milli(z * 50);
    let s2 = sin_milli((x + z) * 20);
    let c3 = cos_milli(x * 140);
    let s3 = sin_milli(z * 140);
    proof {
        assert(-1000000 <= c3 as int * s3 as int <= 1000000) by (nonlinear_arith)
            requires
                -1000 <= c3 as int <= 1000,
                -1000 <= s3 as int <= 1000;
    }
    let h: i64 = (s1 + c1) * 4500 + s2 * 7500 + c3 * s3 * 2 + 14000000;
    if h < 0 {
        0
    } else {
        h
    }
}

/// The whole-voxel target height of world column (x, z), capped at `max_h`.
pub fn target_height(x: u64, z: u64, max_h: u64) -> (t: u64)
    requires
        x <= COORD_LIMIT,
        z <= COORD_LIMIT,
    ensures
        t as int == spec_target_height(x as int, z as int, max_h as int),
{
    let h = height_micro(x, z);
    let t = (h as u64) / 1000000;
    if t > max_h {
        max_h
    } else {
        t
    }
}

/// The clamped target height of a world column does not depend on which
/// chunk's generation pass computes it: two lattice positions that address
/// the same world column agree exactly.
pub proof fn lemma_seam_target_agree(
    cx1: int, x1: int, cz1: int, z1: int,
    cx2: int, x2: int, cz2: int, z2: int,
    e: int, max_h: int,
)
    requires
        cx1 * e + x1 == cx2 * e + x2,
        cz1 * e + z1 == cz2 * e + z2,
    ensures
        spec_target_height(cx1 * e + x1, cz1 * e + z1, max_h)
            == spec_target_height(cx2 * e + x2, cz2 * e + z2, max_h),
{
}

/// Fills the chunk at lattice coordinate (cx, cy, cz): every voxel whose
/// world height lies at or below its column's clamped target height becomes
/// solid; all other voxels keep their previous value.
#[verifier::loop_isolation(false)]
pub fn populate_chunk_heightfield(
    cx: u32,
    cy: u32,
    cz: u32,
    chunk: &mut Chunk,
    world_dim: u32,
)
    requires
        old(chunk).wf(),
        old(chunk).edge() >= 1,
        world_dim >= 1,
        (cx + 1) * old(chunk).edge() <= COORD_LIMIT,
        (cz + 1) * old(chunk).edge() <= COORD_LIMIT,
    ensures
        final(chunk).wf(),
        final(chunk).edge() == old(chunk).edge(),
        forall|i: int, j: int, k: int|
            final(chunk).in_range(i, j, k) ==> final(chunk).spec_get(i, j, k)
                == (if gen_solid(
                        cx as int, cy as int, cz as int,
                        i, j, k,
                        world_dim as int, old(chunk).edge(),
                    ) {
                    1u8
                } else {
                    old(chunk).spec_get(i, j, k)
                }),
{
    let e = chunk.size();
    let ghost ge = old(chunk).edge();
    proof {
        lemma_u32_mul_fits(cy as int, ge);
        lemma_u32_mul_fits(world_dim as int, ge);
        lemma_u32_mul_fits(cx as int, ge);
        lemma_u32_mul_fits(cz as int, ge);
    }
    let world_y_base: u64 = (cy as u64) * (e as u64);
    let max_world_height: u64 = (world_dim as u64) * (e as u64) - 1;

    let mut z: u32 = 0;
    while z < e
        invariant
            z <= e,
            chunk.wf(),
            chunk.edge() == ge,
            forall|i: int, j: int, k: int|
                chunk.in_range(i, j, k) ==> chunk.spec_get(i, j, k)
                    == (if k < z as int && gen_solid(
                            cx as int, cy as int, cz as int,
                            i, j, k,
                            world_dim as int, ge,
                        ) {
                        1u8
                    } else {
                        old(chunk).spec_get(i, j, k)
                    }),
        decreases e - z,
    {
        let mut x: u32 = 0;
        while x < e
            invariant
                x <= e,
                z < e,
                chunk.wf(),
                chunk.edge() == ge,
                forall|i: int, j: int, k: int|
                    chunk.in_range(i, j, k) ==> chunk.spec_get(i, j, k)
                        == (if (k < z as int || (k == z as int && i < x as int))
                                && gen_solid(
                                    cx as int, cy as int, cz as int,
                                    i, j, k,
                                    world_dim as int, ge,
                                ) {
                            1u8
                        } else {
                            old(chunk).spec_get(i, j, k)
                        }),
            decreases e - x,
        {
            proof {
                lemma_step_bound(cx as int, x as int, ge);
                lemma_step_bound(cz as int, z as int, ge);
            }
            let wx: u64 = (cx as u64) * (e as u64) + (x as u64);
            let wz: u64 = (cz as u64) * (e as u64) + (z as u64);
            let target = target_height(wx, wz, max_world_height);

            let mut y: u32 = 0;
            while y < e
                invariant
                    y <= e,
                    x < e,
                    z < e,
                    chunk.wf(),
                    chunk.edge() == ge,
                    forall|i: int, j: int, k: int|
                        chunk.in_range(i, j, k) ==> chunk.spec_get(i, j, k)
                            == (if (k < z as int || (k == z as int && i < x as int)
                                    || (k == z as int && i == x as int && j < y as int))
                                    && gen_solid(
                                        cx as int, cy as int, cz as int,
                                        i, j, k,
                                        world_dim as int, ge,
                                    ) {
                                1u8
                            } else {
                                old(chunk).spec_get(i, j, k)
                            }),
                decreases e - y,
            {
                let wy: u64 = world_y_base + (y as u64);
                if wy <= target {
                    chunk.set(x, y, z, Voxel(1));
                }
                y = y + 1;
            }
            x = x + 1;
        }
        z = z + 1;
    }
}

} // verus!
