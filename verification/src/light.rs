//! Flat shading: fixed-point vector math and the per-polygon lit color.
use vstd::prelude::*;
use crate::fixed::{SCALE, tdiv, div_trunc, isqrt, sqrt_of, isqrt_spec, clamp_i64, clamp_spec,
    lemma_sqrt_of_unique, lemma_isqrt_at_least, lemma_tdiv_bound};
use crate::model::{Vec3, vec3_within};

verus! {

/// Bound on the coordinates of direction vectors (normals, light directions),
/// chosen so squares and products of such coordinates fit in an `i64`.
pub const NORM_LIMIT: i64 = 1_000_000_000;

/// The fixed-point dot product: the scaled sum of coordinate products.
pub open spec fn dot_spec(a: Vec3, b: Vec3) -> int {
    tdiv(a.x * b.x + a.y * b.y + a.z * b.z, SCALE as int)
}

/// The squared length of a vector, in squared fixed-point units.
pub open spec fn len_sq(v: Vec3) -> int {
    v.x * v.x + v.y * v.y + v.z * v.z
}

/// The fixed-point dot product of two vectors. A dot of two unit vectors is
/// the cosine of their angle, scaled by `SCALE`.
pub fn vec3_dot(a: Vec3, b: Vec3) -> (r: i64)
    requires
        vec3_within(a, NORM_LIMIT as int),
        vec3_within(b, NORM_LIMIT as int),
    ensures
        r == dot_spec(a, b),
{
    proof {
        assert(a.x * b.x <= NORM_LIMIT as int * NORM_LIMIT as int && a.x * b.x >= -(
        NORM_LIMIT as int * NORM_LIMIT as int)) by (nonlinear_arith)
            requires
                -NORM_LIMIT <= a.x <= NORM_LIMIT && -NORM_LIMIT <= b.x <= NORM_LIMIT,
        ;
        assert(a.y * b.y <= NORM_LIMIT as int * NORM_LIMIT as int && a.y * b.y >= -(
        NORM_LIMIT as int * NORM_LIMIT as int)) by (nonlinear_arith)
            requires
                -NORM_LIMIT <= a.y <= NORM_LIMIT && -NORM_LIMIT <= b.y <= NORM_LIMIT,
        ;
        assert(a.z * b.z <= NORM_LIMIT as int * NORM_LIMIT as int && a.z * b.z >= -(
        NORM_LIMIT as int * NORM_LIMIT as int)) by (nonlinear_arith)
            requires
                -NORM_LIMIT <= a.z <= NORM_LIMIT && -NORM_LIMIT <= b.z <= NORM_LIMIT,
        ;
    }
    let s = a.x * b.x + a.y * b.y + a.z * b.z;
    div_trunc(s, SCALE)
}

/// The normalized vector: each coordinate scaled by `SCALE` and divided by
/// the integer length of the vector.
pub open spec fn normalize_spec(v: Vec3) -> Vec3 {
    let l = sqrt_of(len_sq(v));
    Vec3 {
        x: tdiv(v.x * SCALE as int, l) as i64,
        y: tdiv(v.y * SCALE as int, l) as i64,
        z: tdiv(v.z * SCALE as int, l) as i64,
    }
}

/// Scales a vector to unit length (`SCALE`), up to integer rounding. The
/// result's coordinates never exceed one unit in magnitude.
pub fn vec3_normalize(v: Vec3) -> (r: Vec3)
    requires
        vec3_within(v, NORM_LIMIT as int),
        len_sq(v) > 0,
    ensures
        r == normalize_spec(v),
        vec3_within(r, SCALE as int),
{
    proof {
        assert(v.x * v.x <= NORM_LIMIT as int * NORM_LIMIT as int && v.x * v.x >= 0)
            by (nonlinear_arith)
            requires
                -NORM_LIMIT <= v.x <= NORM_LIMIT,
        ;
        assert(v.y * v.y <= NORM_LIMIT as int * NORM_LIMIT as int && v.y * v.y >= 0)
            by (nonlinear_arith)
            requires
                -NORM_LIMIT <= v.y <= NORM_LIMIT,
        ;
        assert(v.z * v.z <= NORM_LIMIT as int * NORM_LIMIT as int && v.z * v.z >= 0)
            by (nonlinear_arith)
            requires
                -NORM_LIMIT <= v.z <= NORM_LIMIT,
        ;
    }
    let sq: i64 = v.x * v.x + v.y * v.y + v.z * v.z;
    proof {
        assert(sq >= 0);
        assert(sq as u64 as int == sq as int);
    }
    let l64: u64 = isqrt(sq as u64);
    proof {
        lemma_sqrt_of_unique(sq as int, l64 as int);
        // the root of a non-zero square sum is at least 1
        assert(l64 >= 1) by {
            if l64 == 0 {
                assert((l64 as int + 1) * (l64 as int + 1) == 1) by (nonlinear_arith)
                    requires
                        l64 == 0,
                ;
                assert((sq as int) < 1);
            }
        }
        // each coordinate is bounded by the root, so each quotient fits one unit
        let ax = if v.x >= 0 { v.x as int } else { -(v.x as int) };
        let ay = if v.y >= 0 { v.y as int } else { -(v.y as int) };
        let az = if v.z >= 0 { v.z as int } else { -(v.z as int) };
        assert(ax * ax == v.x * v.x && ay * ay == v.y * v.y && az * az == v.z * v.z)
            by (nonlinear_arith)
            requires
                ax == (if v.x >= 0 { v.x as int } else { -(v.x as int) }) && ay == (if v.y >= 0 {
                    v.y as int
                } else {
                    -(v.y as int)
                }) && az == (if v.z >= 0 { v.z as int } else { -(v.z as int) }),
        ;
        lemma_isqrt_at_least(sq as int, l64 as int, ax);
        lemma_isqrt_at_least(sq as int, l64 as int, ay);
        lemma_isqrt_at_least(sq as int, l64 as int, az);
        assert(v.x * SCALE as int <= SCALE as int * (l64 as int) && -(SCALE as int * (
        l64 as int)) <= v.x * SCALE as int) by (nonlinear_arith)
            requires
                -(l64 as int) <= v.x as int <= l64 as int && SCALE as int > 0,
        ;
        assert(v.y * SCALE as int <= SCALE as int * (l64 as int) && -(SCALE as int * (
        l64 as int)) <= v.y * SCALE as int) by (nonlinear_arith)
            requires
                -(l64 as int) <= v.y as int <= l64 as int && SCALE as int > 0,
        ;
        assert(v.z * SCALE as int <= SCALE as int * (l64 as int) && -(SCALE as int * (
        l64 as int)) <= v.z * SCALE as int) by (nonlinear_arith)
            requires
                -(l64 as int) <= v.z as int <= l64 as int && SCALE as int > 0,
        ;
        lemma_tdiv_bound(v.x * SCALE as int, l64 as int, SCALE as int);
        lemma_tdiv_bound(v.y * SCALE as int, l64 as int, SCALE as int);
        lemma_tdiv_bound(v.z * SCALE as int, l64 as int, SCALE as int);
    }
    let l: i64 = l64 as i64;
    Vec3 { x: div_trunc(v.x * SCALE, l), y: div_trunc(v.y * SCALE, l), z: div_trunc(
        v.z * SCALE,
        l,
    ) }
}

/// The lit intensity: the clamped cosine between surface normal and light
/// direction plus the ambient strength, capped at one unit.
pub open spec fn intensity_spec(normal: Vec3, light_dir: Vec3, strake: int) -> int {
    let d = dot_spec(normalize_spec(normal), normalize_spec(light_dir));
    let lit = if d > 0 {
        d
    } else {
        0
    };
    clamp_spec(lit + strake, 0, SCALE as int)
}

/// One 8-bit channel scaled by an intensity in `[0, SCALE]`.
pub open spec fn shade_channel(c: int, intensity: int) -> int {
    c * intensity / (SCALE as int)
}

/// The shaded color: each channel of the base color scaled by the intensity,
/// packed with full alpha.
pub open spec fn apply_light_spec(color: u32, normal: Vec3, light_dir: Vec3, strake: int) -> u32 {
    let intensity = intensity_spec(normal, light_dir, strake);
    let r = shade_channel(((color >> 16u32) & 0xFF) as int, intensity);
    let g = shade_channel(((color >> 8u32) & 0xFF) as int, intensity);
    let b = shade_channel((color & 0xFF) as int, intensity);
    (0xFF00_0000 + r * 0x1_0000 + g * 0x100 + b) as u32
}

/// Shades a packed base color by a face normal, a light direction and an
/// ambient strength in `[0, SCALE]`. Both vectors must be non-degenerate.
pub fn apply_light(color: u32, normal: Vec3, light_dir: Vec3, strake: i64) -> (c: u32)
    requires
        vec3_within(normal, NORM_LIMIT as int),
        vec3_within(light_dir, NORM_LIMIT as int),
        len_sq(normal) > 0,
        len_sq(light_dir) > 0,
        0 <= strake <= SCALE,
    ensures
        c == apply_light_spec(color, normal, light_dir, strake as int),
{
    let n = vec3_normalize(normal);
    let l = vec3_normalize(light_dir);
    let d = vec3_dot(n, l);
    proof {
        assert(n.x * l.x + n.y * l.y + n.z * l.z <= 3 * (SCALE as int) * (SCALE as int) && -(3
            * (SCALE as int) * (SCALE as int)) <= n.x * l.x + n.y * l.y + n.z * l.z)
            by (nonlinear_arith)
            requires
                vec3_within(n, SCALE as int) && vec3_within(l, SCALE as int),
        ;
        lemma_tdiv_bound(n.x * l.x + n.y * l.y + n.z * l.z, SCALE as int, 3 * SCALE as int);
    }
    let lit: i64 = if d > 0 {
        d
    } else {
        0
    };
    let intensity: i64 = clamp_i64(lit + strake, 0, SCALE);
    let cr: i64 = ((color >> 16) & 0xFF) as i64;
    let cg: i64 = ((color >> 8) & 0xFF) as i64;
    let cb: i64 = (color & 0xFF) as i64;
    proof {
        assert(cr <= 255 && cg <= 255 && cb <= 255) by (bit_vector)
            requires
                cr == ((color >> 16) & 0xFF) as i64 && cg == ((color >> 8) & 0xFF) as i64 && cb
                    == (color & 0xFF) as i64,
        ;
        assert(cr * intensity <= 255 * (SCALE as int) && 0 <= cr * intensity)
            by (nonlinear_arith)
            requires
                0 <= cr <= 255 && 0 <= intensity <= SCALE,
        ;
        assert(cg * intensity <= 255 * (SCALE as int) && 0 <= cg * intensity)
            by (nonlinear_arith)
            requires
                0 <= cg <= 255 && 0 <= intensity <= SCALE,
        ;
        assert(cb * intensity <= 255 * (SCALE as int) && 0 <= cb * intensity)
            by (nonlinear_arith)
            requires
                0 <= cb <= 255 && 0 <= intensity <= SCALE,
        ;
        lemma_tdiv_bound(cr * intensity, SCALE as int, 255);
        lemma_tdiv_bound(cg * intensity, SCALE as int, 255);
        lemma_tdiv_bound(cb * intensity, SCALE as int, 255);
    }
    let r: i64 = (cr * intensity) / SCALE;
    let g: i64 = (cg * intensity) / SCALE;
    let b: i64 = (cb * intensity) / SCALE;
    crate::rgb(r as u8, g as u8, b as u8)
}

} // verus!
