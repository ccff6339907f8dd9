//! Fixed-point scale and the small integer helpers the renderer is built on:
//! truncating division (the rounding the rasterizer's edge interpolation
//! uses), clamping, and an integer square root for vector lengths.
use vstd::prelude::*;

verus! {

/// One fixed-point unit is `1/SCALE`; a value of `SCALE` is 1.0.
pub const SCALE: i64 = 10000;

/// Division rounding toward zero, as Rust's `/` on machine integers does.
pub open spec fn tdiv(a: int, b: int) -> int {
    if a >= 0 {
        if b >= 0 {
            a / b
        } else {
            -(a / -b)
        }
    } else {
        if b >= 0 {
            -((-a) / b)
        } else {
            (-a) / -b
        }
    }
}

/// Clamping an integer into `[lo, hi]`.
pub open spec fn clamp_spec(v: int, lo: int, hi: int) -> int {
    if v < lo {
        lo
    } else if v > hi {
        hi
    } else {
        v
    }
}

pub fn clamp_i64(v: i64, lo: i64, hi: i64) -> (r: i64)
    requires
        lo <= hi,
    ensures
        r == clamp_spec(v as int, lo as int, hi as int),
{
    if v < lo {
        lo
    } else if v > hi {
        hi
    } else {
        v
    }
}

/// Truncating division on `i64`, with the quotient named by `tdiv`.
pub fn div_trunc(a: i64, b: i64) -> (r: i64)
    requires
        b != 0,
        a != i64::MIN,
        b != i64::MIN,
    ensures
        r == tdiv(a as int, b as int),
{
    proof {
        let ai = a as int;
        let bi = b as int;
        let na = if ai >= 0 {
            ai
        } else {
            -ai
        };
        let nb = if bi >= 0 {
            bi
        } else {
            -bi
        };
        assert(0 <= na / nb <= na) by (nonlinear_arith)
            requires
                0 <= na && 0 < nb,
        ;
    }
    if b > 0 {
        if a >= 0 {
            a / b
        } else {
            -((-a) / b)
        }
    } else {
        let nb = -b;
        if a >= 0 {
            -(a / nb)
        } else {
            (-a) / nb
        }
    }
}

/// The integer square root: the greatest `r` with `r * r <= n`.
pub open spec fn isqrt_spec(n: int, r: int) -> bool {
    0 <= r && r * r <= n && n < (r + 1) * (r + 1)
}

/// Binary-search integer square root.
pub fn isqrt(n: u64) -> (r: u64)
    ensures
        isqrt_spec(n as int, r as int),
        r * r <= n,
        r <= 0x1_0000_0000u64,
{
    let mut lo: u64 = 0;
    let mut hi: u64 = if n < 0xFFFF_FFFF {
        n + 1
    } else {
        0x1_0000_0000
    };
    // invariant: lo * lo <= n < hi * hi
    proof {
        if n < 0xFFFF_FFFF {
            assert(n < (n + 1) * (n + 1)) by (nonlinear_arith)
                requires
                    0 <= n,
            ;
        } else {
            assert((0x1_0000_0000u64 as int) * (0x1_0000_0000u64 as int) > u64::MAX as int)
                by (nonlinear_arith);
        }
    }
    while lo + 1 < hi
        invariant
            lo < hi,
            lo * lo <= n,
            n < hi * hi,
            hi <= 0x1_0000_0000u64,
        decreases hi - lo,
    {
        let mid: u64 = lo + (hi - lo) / 2;
        proof {
            assert(mid * mid <= (0xFFFF_FFFFu64 as int) * (0xFFFF_FFFFu64 as int))
                by (nonlinear_arith)
                requires
                    0 <= mid <= 0xFFFF_FFFFu64,
            ;
        }
        if mid * mid <= n {
            lo = mid;
        } else {
            hi = mid;
        }
    }
    lo
}

/// The integer square root as a spec-level function of its argument.
pub open spec fn sqrt_of(n: int) -> int {
    choose|r: int| isqrt_spec(n, r)
}

/// `isqrt_spec` pins the root down, so `sqrt_of` names it.
pub proof fn lemma_sqrt_of_unique(n: int, r: int)
    requires
        isqrt_spec(n, r),
    ensures
        sqrt_of(n) == r,
{
    assert(exists|x: int| isqrt_spec(n, x)) by {
        assert(isqrt_spec(n, r));
    }
    let c = sqrt_of(n);
    assert(isqrt_spec(n, c));
    if c < r {
        assert((c + 1) * (c + 1) <= r * r) by (nonlinear_arith)
            requires
                0 <= c + 1 && c + 1 <= r,
        ;
    }
    if r < c {
        assert((r + 1) * (r + 1) <= c * c) by (nonlinear_arith)
            requires
                0 <= r + 1 && r + 1 <= c,
        ;
    }
}

/// A quotient is bounded by `m` when the dividend is within `m` times the
/// divisor.
pub proof fn lemma_tdiv_bound(a: int, b: int, m: int)
    requires
        0 < b,
        0 <= m,
        -(m * b) <= a <= m * b,
    ensures
        -m <= tdiv(a, b) <= m,
{
    if a >= 0 {
        vstd::arithmetic::div_mod::lemma_div_is_ordered(a, m * b, b);
        vstd::arithmetic::div_mod::lemma_div_by_multiple(m, b);
        vstd::arithmetic::div_mod::lemma_div_pos_is_pos(a, b);
    } else {
        vstd::arithmetic::div_mod::lemma_div_is_ordered(-a, m * b, b);
        vstd::arithmetic::div_mod::lemma_div_by_multiple(m, b);
        vstd::arithmetic::div_mod::lemma_div_pos_is_pos(-a, b);
    }
}

/// A buffer index below `w * h` decomposes into a pixel row and column.
pub proof fn lemma_pixel_index(j: int, w: int, h: int)
    requires
        0 <= w,
        0 <= h,
        0 <= j < w * h,
    ensures
        0 < w,
        0 < h,
        j == (j / w) * w + (j % w),
        0 <= j % w < w,
        0 <= j / w < h,
{
    assert(0 < w && 0 < h) by (nonlinear_arith)
        requires
            0 <= w && 0 <= h && 0 <= j && j < w * h,
    ;
    vstd::arithmetic::div_mod::lemma_fundamental_div_mod(j, w);
    vstd::arithmetic::div_mod::lemma_mod_bound(j, w);
    vstd::arithmetic::div_mod::lemma_div_pos_is_pos(j, w);
    vstd::arithmetic::div_mod::lemma_multiply_divide_lt(j, w, h);
    assert(j == (j / w) * w + (j % w)) by (nonlinear_arith)
        requires
            j == w * (j / w) + j % w,
    ;
}

/// A pixel's row and column give back its buffer index.
pub proof fn lemma_index_of_pixel(px: int, py: int, w: int, h: int)
    requires
        0 <= px < w,
        0 <= py < h,
    ensures
        0 <= py * w + px < w * h,
        (py * w + px) / w == py,
        (py * w + px) % w == px,
{
    assert(0 <= py * w + px && py * w + px < w * h) by (nonlinear_arith)
        requires
            0 <= px < w && 0 <= py < h,
    ;
    vstd::arithmetic::div_mod::lemma_fundamental_div_mod_converse_div(py * w + px, w, py, px);
    vstd::arithmetic::div_mod::lemma_fundamental_div_mod_converse_mod(py * w + px, w, py, px);
}

/// The square root is monotone, so each component of a vector is bounded by
/// the length of the whole vector.
pub proof fn lemma_isqrt_at_least(n: int, r: int, c: int)
    requires
        isqrt_spec(n, r),
        0 <= c,
        c * c <= n,
    ensures
        c <= r,
{
    if c > r {
        assert(c >= r + 1);
        assert((r + 1) * (r + 1) <= c * c) by (nonlinear_arith)
            requires
                0 <= r + 1 && r + 1 <= c,
        ;
    }
}

} // verus!
