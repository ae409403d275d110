//! Three-component vectors on the fixed-point grid.
//!
//! A component `v: i64` stands for the real number `v / FP_ONE`. Sums,
//! differences and cross products of grid values are exact; products and
//! quotients of fixed-point values truncate toward zero, and every such
//! rounding is pinned exactly by a spec-level mirror (`tdiv`).

use vstd::prelude::*;

verus! {

use crate::FP_ONE;
use crate::num::{tdiv, sqrt_floor, is_sqrt_floor, lemma_sqrt_floor_unique, div_i128, isqrt_u128};
use vstd::math::abs;

#[derive(Clone, Copy, Debug, PartialEq, Eq, Structural)]
pub struct Vec3 {
    pub x: i64,
    pub y: i64,
    pub z: i64,
}

/// Every component of `v` has magnitude at most `m`.
pub open spec fn bounded(v: Vec3, m: int) -> bool {
    abs(v.x as int) <= m && abs(v.y as int) <= m && abs(v.z as int) <= m
}

/// Exact inner product over the integers (carries scale squared).
pub open spec fn dot3(a: Vec3, b: Vec3) -> int {
    a.x * b.x + a.y * b.y + a.z * b.z
}

/// Exact cross product over the integers, one component at a time.
pub open spec fn cross_x(a: Vec3, b: Vec3) -> int {
    a.y * b.z - a.z * b.y
}

pub open spec fn cross_y(a: Vec3, b: Vec3) -> int {
    a.z * b.x - a.x * b.z
}

pub open spec fn cross_z(a: Vec3, b: Vec3) -> int {
    a.x * b.y - a.y * b.x
}

/// The component of `v` along `axis` (0 = x, 1 = y, 2 = z).
pub open spec fn comp3(v: Vec3, axis: int) -> int {
    if axis == 0 {
        v.x as int
    } else if axis == 1 {
        v.y as int
    } else {
        v.z as int
    }
}

/// A vector scaled by the fixed-point factor `k / FP_ONE`, truncating.
pub open spec fn scale_spec(k: int, v: Vec3) -> (int, int, int) {
    (tdiv(k * v.x, FP_ONE as int), tdiv(k * v.y, FP_ONE as int), tdiv(k * v.z, FP_ONE as int))
}

/// The normal direction of the integer vector `(x, y, z)`, stretched to
/// fixed-point length `FP_ONE`; the zero vector stays zero.
pub open spec fn unit_spec(x: int, y: int, z: int) -> (int, int, int) {
    let n = sqrt_floor(x * x + y * y + z * z);
    if n == 0 {
        (0, 0, 0)
    } else {
        (tdiv(x * FP_ONE, n), tdiv(y * FP_ONE, n), tdiv(z * FP_ONE, n))
    }
}

impl Vec3 {
    pub fn new(x: i64, y: i64, z: i64) -> (v: Vec3)
        ensures
            v == (Vec3 { x, y, z }),
    {
        Vec3 { x, y, z }
    }

    pub fn zero() -> (v: Vec3)
        ensures
            v == (Vec3 { x: 0i64, y: 0i64, z: 0i64 }),
    {
        Vec3 { x: 0, y: 0, z: 0 }
    }

    /// Sentinel corner for an empty box: every component at the top of the
    /// grid, so that a component-wise minimum with any real value yields
    /// that value.
    pub fn inf() -> (v: Vec3)
        ensures
            v == (Vec3 { x: i64::MAX, y: i64::MAX, z: i64::MAX }),
    {
        Vec3 { x: i64::MAX, y: i64::MAX, z: i64::MAX }
    }

    pub fn neg_inf() -> (v: Vec3)
        ensures
            v == (Vec3 { x: i64::MIN, y: i64::MIN, z: i64::MIN }),
    {
        Vec3 { x: i64::MIN, y: i64::MIN, z: i64::MIN }
    }

    pub fn comp(&self, axis: usize) -> (c: i64)
        requires
            axis < 3,
        ensures
            c == comp3(*self, axis as int),
    {
        if axis == 0 {
            self.x
        } else if axis == 1 {
            self.y
        } else {
            self.z
        }
    }

    pub fn plus(self, o: Vec3) -> (r: Vec3)
        requires
            i64::MIN <= self.x + o.x <= i64::MAX,
            i64::MIN <= self.y + o.y <= i64::MAX,
            i64::MIN <= self.z + o.z <= i64::MAX,
        ensures
            r.x == self.x + o.x,
            r.y == self.y + o.y,
            r.z == self.z + o.z,
    {
        Vec3 { x: self.x + o.x, y: self.y + o.y, z: self.z + o.z }
    }

    pub fn minus(self, o: Vec3) -> (r: Vec3)
        requires
            i64::MIN <= self.x - o.x <= i64::MAX,
            i64::MIN <= self.y - o.y <= i64::MAX,
            i64::MIN <= self.z - o.z <= i64::MAX,
        ensures
            r.x == self.x - o.x,
            r.y == self.y - o.y,
            r.z == self.z - o.z,
    {
        Vec3 { x: self.x - o.x, y: self.y - o.y, z: self.z - o.z }
    }

    pub fn neg(self) -> (r: Vec3)
        requires
            self.x > i64::MIN,
            self.y > i64::MIN,
            self.z > i64::MIN,
        ensures
            r.x == -self.x,
            r.y == -self.y,
            r.z == -self.z,
    {
        Vec3 { x: -self.x, y: -self.y, z: -self.z }
    }

    /// Exact inner product, widened so that it cannot overflow.
    pub fn dot_wide(&self, o: &Vec3) -> (r: i128)
        requires
            bounded(*self, 0x4000_0000_0000_0000),
            bounded(*o, 0x4000_0000_0000_0000),
        ensures
            r == dot3(*self, *o),
    {
        proof {
            let m: int = 0x4000_0000_0000_0000;
            crate::num::lemma_mul_abs_bound(self.x as int, o.x as int, m, m);
            crate::num::lemma_mul_abs_bound(self.y as int, o.y as int, m, m);
            crate::num::lemma_mul_abs_bound(self.z as int, o.z as int, m, m);
        }
        (self.x as i128) * (o.x as i128) + (self.y as i128) * (o.y as i128) + (self.z as i128)
            * (o.z as i128)
    }

    /// Inner product of two fixed-point vectors, scaled back to fixed point.
    pub fn dot_fx(&self, o: &Vec3) -> (r: i64)
        requires
            bounded(*self, 0x40_0000_0000),
            bounded(*o, 0x40_0000_0000),
        ensures
            r == tdiv(dot3(*self, *o), FP_ONE as int),
    {
        proof {
            let m: int = 0x40_0000_0000;
            crate::num::lemma_mul_abs_bound(self.x as int, o.x as int, m, m);
            crate::num::lemma_mul_abs_bound(self.y as int, o.y as int, m, m);
            crate::num::lemma_mul_abs_bound(self.z as int, o.z as int, m, m);
        }
        let w: i128 = self.dot_wide(o);
        proof {
            crate::num::lemma_tdiv_quot_bound(
                w as int,
                FP_ONE as int,
                3 * 0x40_0000_0000int * 0x40_0000_0000int,
            );
        }
        let q: i128 = div_i128(w, FP_ONE as i128);
        q as i64
    }

    /// Squared fixed-point length, widened.
    pub fn sq_len_wide(&self) -> (r: i128)
        requires
            bounded(*self, 0x4000_0000_0000_0000),
        ensures
            r == dot3(*self, *self),
            r >= 0,
    {
        proof {
            assert(self.x * self.x + self.y * self.y + self.z * self.z >= 0) by (nonlinear_arith);
        }
        self.dot_wide(self)
    }

    /// Fixed-point length: the integer square root of the exact squared
    /// length (scale squared), which lands back on the fixed-point scale.
    pub fn len_fx(&self) -> (r: i64)
        requires
            bounded(*self, 0x4000_0000_0000_0000),
        ensures
            r == sqrt_floor(dot3(*self, *self)),
            0 <= r,
    {
        let w: i128 = self.sq_len_wide();
        proof {
            assert((w as int) < 0x4000_0000_0000_0000_0000_0000_0000_0000int) by (nonlinear_arith)
                requires
                    w == dot3(*self, *self),
                    bounded(*self, 0x4000_0000_0000_0000),
            ;
        }
        let r: u128 = isqrt_u128(w as u128);
        proof {
            assert(is_sqrt_floor(w as int, r as int));
            assert((r as int) * (r as int) <= w as int);
            assert(r < 0x8000_0000_0000_0000u128);
        }
        r as i64
    }

    /// Normalized direction with fixed-point length `FP_ONE` (the zero
    /// vector stays zero).
    pub fn unit(self) -> (r: Vec3)
        requires
            bounded(self, 0x4000_0000_0000),
        ensures
            (r.x as int, r.y as int, r.z as int) == unit_spec(self.x as int, self.y as int, self.z as int),
            bounded(r, FP_ONE as int),
    {
        normalize_wide(self.x as i128, self.y as i128, self.z as i128)
    }

    /// Whether the vector is too small to name a direction. The classic
    /// threshold sits far below one grid step, so on the grid it means
    /// exactly zero.
    pub fn near_zero(&self) -> (r: bool)
        ensures
            r == (self.x == 0 && self.y == 0 && self.z == 0),
    {
        self.x == 0 && self.y == 0 && self.z == 0
    }
}

/// Exact cross product, widened so that it cannot overflow.
pub fn cross_wide(a: &Vec3, b: &Vec3) -> (r: (i128, i128, i128))
    requires
        bounded(*a, 0x4000_0000),
        bounded(*b, 0x4000_0000),
    ensures
        r.0 == cross_x(*a, *b),
        r.1 == cross_y(*a, *b),
        r.2 == cross_z(*a, *b),
        abs(r.0 as int) <= 0x2000_0000_0000_0000,
        abs(r.1 as int) <= 0x2000_0000_0000_0000,
        abs(r.2 as int) <= 0x2000_0000_0000_0000,
{
    proof {
        crate::num::lemma_mul_abs_bound(a.x as int, b.y as int, 0x4000_0000, 0x4000_0000);
        crate::num::lemma_mul_abs_bound(a.x as int, b.z as int, 0x4000_0000, 0x4000_0000);
        crate::num::lemma_mul_abs_bound(a.y as int, b.x as int, 0x4000_0000, 0x4000_0000);
        crate::num::lemma_mul_abs_bound(a.y as int, b.z as int, 0x4000_0000, 0x4000_0000);
        crate::num::lemma_mul_abs_bound(a.z as int, b.x as int, 0x4000_0000, 0x4000_0000);
        crate::num::lemma_mul_abs_bound(a.z as int, b.y as int, 0x4000_0000, 0x4000_0000);
    }
    let rx: i128 = (a.y as i128) * (b.z as i128) - (a.z as i128) * (b.y as i128);
    let ry: i128 = (a.z as i128) * (b.x as i128) - (a.x as i128) * (b.z as i128);
    let rz: i128 = (a.x as i128) * (b.y as i128) - (a.y as i128) * (b.x as i128);
    (rx, ry, rz)
}

/// Exact inner product of a grid vector with a widened vector.
pub fn dot_vw(a: &Vec3, w: (i128, i128, i128)) -> (r: i128)
    requires
        bounded(*a, 0x8000_0000),
        abs(w.0 as int) <= 0x2000_0000_0000_0000,
        abs(w.1 as int) <= 0x2000_0000_0000_0000,
        abs(w.2 as int) <= 0x2000_0000_0000_0000,
    ensures
        r == a.x * w.0 + a.y * w.1 + a.z * w.2,
        abs(r as int) <= 0x3000_0000_0000_0000_0000_0000,
{
    proof {
        crate::num::lemma_mul_abs_bound(a.x as int, w.0 as int, 0x8000_0000, 0x2000_0000_0000_0000);
        crate::num::lemma_mul_abs_bound(a.y as int, w.1 as int, 0x8000_0000, 0x2000_0000_0000_0000);
        crate::num::lemma_mul_abs_bound(a.z as int, w.2 as int, 0x8000_0000, 0x2000_0000_0000_0000);
    }
    (a.x as i128) * w.0 + (a.y as i128) * w.1 + (a.z as i128) * w.2
}

/// Normalize the exact integer vector `(x, y, z)` to fixed-point length
/// `FP_ONE`, truncating each component; the zero vector stays zero.
pub fn normalize_wide(x: i128, y: i128, z: i128) -> (r: Vec3)
    requires
        abs(x as int) <= 0x4000_0000_0000_0000,
        abs(y as int) <= 0x4000_0000_0000_0000,
        abs(z as int) <= 0x4000_0000_0000_0000,
    ensures
        (r.x as int, r.y as int, r.z as int) == unit_spec(x as int, y as int, z as int),
        bounded(r, FP_ONE as int),
{
    proof {
        let m: int = 0x4000_0000_0000_0000;
        crate::num::lemma_mul_abs_bound(x as int, x as int, m, m);
        crate::num::lemma_mul_abs_bound(y as int, y as int, m, m);
        crate::num::lemma_mul_abs_bound(z as int, z as int, m, m);
        assert(x * x >= 0 && y * y >= 0 && z * z >= 0) by (nonlinear_arith);
    }
    let sq: i128 = x * x + y * y + z * z;
    let n: u128 = isqrt_u128(sq as u128);
    if n == 0 {
        proof {
            lemma_sqrt_floor_unique(sq as int, 0);
        }
        Vec3 { x: 0, y: 0, z: 0 }
    } else {
        let ni: i128 = n as i128;
        proof {
            lemma_normalize_comp_bound(x as int, y as int, z as int, n as int);
            lemma_normalize_comp_bound(y as int, x as int, z as int, n as int);
            lemma_normalize_comp_bound(z as int, y as int, x as int, n as int);
            let m: int = 0x4000_0000_0000_0000;
            crate::num::lemma_mul_abs_bound(x as int, FP_ONE as int, m, FP_ONE as int);
            crate::num::lemma_mul_abs_bound(y as int, FP_ONE as int, m, FP_ONE as int);
            crate::num::lemma_mul_abs_bound(z as int, FP_ONE as int, m, FP_ONE as int);
        }
        let rx: i128 = div_i128(x * (FP_ONE as i128), ni);
        let ry: i128 = div_i128(y * (FP_ONE as i128), ni);
        let rz: i128 = div_i128(z * (FP_ONE as i128), ni);
        Vec3 { x: rx as i64, y: ry as i64, z: rz as i64 }
    }
}

/// Each normalized component has magnitude at most `FP_ONE`, because no
/// component exceeds the vector's length.
proof fn lemma_normalize_comp_bound(x: int, y: int, z: int, n: int)
    requires
        is_sqrt_floor(x * x + y * y + z * z, n),
        n > 0,
    ensures
        abs(tdiv(x * FP_ONE, n)) <= FP_ONE as int,
        sqrt_floor(x * x + y * y + z * z) == n,
{
    lemma_sqrt_floor_unique(x * x + y * y + z * z, n);
    assert(x * x <= x * x + y * y + z * z) by (nonlinear_arith);
    assert(abs(x) <= n) by {
        if abs(x) > n {
            assert((n + 1) * (n + 1) <= abs(x) * abs(x)) by (nonlinear_arith)
                requires 0 <= n && n + 1 <= abs(x);
            assert(abs(x) * abs(x) == x * x) by (nonlinear_arith);
            assert(false);
        }
    };
    assert(abs(x * FP_ONE) <= n * FP_ONE) by (nonlinear_arith)
        requires abs(x) <= n;
    crate::num::lemma_tdiv_mono(abs(x * FP_ONE) as int, n * (FP_ONE as int), n);
    assert(n * FP_ONE / n == FP_ONE) by (nonlinear_arith)
        requires n > 0;
    assert(tdiv(n * FP_ONE, n) == FP_ONE as int);
    assert(abs(tdiv(x * FP_ONE, n)) == tdiv(abs(x * FP_ONE) as int, n));
}


/// A vector scaled by the fixed-point factor `k / FP_ONE`, truncating each
/// component.
pub fn scale_v(k: i64, v: Vec3) -> (r: Vec3)
    requires
        abs(k as int) <= 0x8000_0000,
        bounded(v, 0x8000_0000),
    ensures
        (r.x as int, r.y as int, r.z as int) == scale_spec(k as int, v),
        abs(r.x as int) <= tdiv_mag(k as int, v.x as int),
        bounded(r, 0x1_0000_0000_0000),
{
    proof {
        crate::num::lemma_mul_abs_bound(k as int, v.x as int, 0x8000_0000, 0x8000_0000);
        crate::num::lemma_mul_abs_bound(k as int, v.y as int, 0x8000_0000, 0x8000_0000);
        crate::num::lemma_mul_abs_bound(k as int, v.z as int, 0x8000_0000, 0x8000_0000);
        crate::num::lemma_tdiv_quot_bound(
            k * v.x,
            FP_ONE as int,
            0x4000_0000_0000_0000,
        );
        crate::num::lemma_tdiv_quot_bound(
            k * v.y,
            FP_ONE as int,
            0x4000_0000_0000_0000,
        );
        crate::num::lemma_tdiv_quot_bound(
            k * v.z,
            FP_ONE as int,
            0x4000_0000_0000_0000,
        );
    }
    let rx = crate::num::div_i128((k as i128) * (v.x as i128), FP_ONE as i128);
    let ry = crate::num::div_i128((k as i128) * (v.y as i128), FP_ONE as i128);
    let rz = crate::num::div_i128((k as i128) * (v.z as i128), FP_ONE as i128);
    Vec3 { x: rx as i64, y: ry as i64, z: rz as i64 }
}

/// Helper magnitude for `scale_v`'s per-component bound.
pub open spec fn tdiv_mag(k: int, x: int) -> int {
    abs(tdiv(k * x, FP_ONE as int)) as int
}

/// Component-wise product of an attenuation (each channel within
/// `[0, FP_ONE]`) and a non-negative radiance: each channel keeps its
/// fraction and never grows.
pub fn hadamard_fx(a: Vec3, b: Vec3) -> (r: Vec3)
    requires
        0 <= a.x <= FP_ONE,
        0 <= a.y <= FP_ONE,
        0 <= a.z <= FP_ONE,
        0 <= b.x,
        0 <= b.y,
        0 <= b.z,
    ensures
        r.x == tdiv(a.x * b.x, FP_ONE as int),
        r.y == tdiv(a.y * b.y, FP_ONE as int),
        r.z == tdiv(a.z * b.z, FP_ONE as int),
        0 <= r.x <= b.x,
        0 <= r.y <= b.y,
        0 <= r.z <= b.z,
{
    proof {
        crate::num::lemma_tdiv_scale_le(a.x as int, b.x as int, FP_ONE as int);
        crate::num::lemma_tdiv_scale_le(a.y as int, b.y as int, FP_ONE as int);
        crate::num::lemma_tdiv_scale_le(a.z as int, b.z as int, FP_ONE as int);
        crate::num::lemma_mul_abs_bound(a.x as int, b.x as int, 0x2_0000, 0x8000_0000_0000_0000);
        crate::num::lemma_mul_abs_bound(a.y as int, b.y as int, 0x2_0000, 0x8000_0000_0000_0000);
        crate::num::lemma_mul_abs_bound(a.z as int, b.z as int, 0x2_0000, 0x8000_0000_0000_0000);
    }
    let rx = crate::num::div_i128((a.x as i128) * (b.x as i128), FP_ONE as i128);
    let ry = crate::num::div_i128((a.y as i128) * (b.y as i128), FP_ONE as i128);
    let rz = crate::num::div_i128((a.z as i128) * (b.z as i128), FP_ONE as i128);
    Vec3 { x: rx as i64, y: ry as i64, z: rz as i64 }
}

/// The refracted direction, step for step as `refract` computes it: the
/// capped cosine of incidence, the perpendicular part scaled by the index
/// ratio, and the parallel part from the square root of the remaining
/// energy.
pub open spec fn refract_spec(uv: Vec3, n: Vec3, ratio: int) -> (int, int, int) {
    let nuv = Vec3 { x: (-uv.x) as i64, y: (-uv.y) as i64, z: (-uv.z) as i64 };
    let cos_raw = tdiv(dot3(nuv, n), FP_ONE as int);
    let cos = if cos_raw < FP_ONE {
        cos_raw
    } else {
        FP_ONE as int
    };
    let sc = scale_spec(cos, n);
    let inner_v = Vec3 {
        x: (uv.x + sc.0) as i64,
        y: (uv.y + sc.1) as i64,
        z: (uv.z + sc.2) as i64,
    };
    let rp = scale_spec(ratio, inner_v);
    let rp_v = Vec3 { x: rp.0 as i64, y: rp.1 as i64, z: rp.2 as i64 };
    let sq = tdiv(dot3(rp_v, rp_v), FP_ONE as int);
    let inner = FP_ONE - sq;
    let inner_abs = if inner >= 0 {
        inner
    } else {
        -inner
    };
    let coef = sqrt_floor(inner_abs * FP_ONE);
    let rpar = scale_spec(coef, n);
    (rp_v.x - rpar.0, rp_v.y - rpar.1, rp_v.z - rpar.2)
}

/// The incoming direction mirrored about the normal:
/// `v - 2 (v . n) n`, on the fixed-point grid.
pub open spec fn reflect_spec(v: Vec3, n: Vec3) -> (int, int, int) {
    let d = tdiv(dot3(v, n), FP_ONE as int);
    let s = scale_spec(2 * d, n);
    (v.x - s.0, v.y - s.1, v.z - s.2)
}

impl Vec3 {
    pub fn reflect(vector: Vec3, normal: Vec3) -> (r: Vec3)
        requires
            bounded(vector, 2 * FP_ONE as int),
            bounded(normal, 2 * FP_ONE as int),
        ensures
            (r.x as int, r.y as int, r.z as int) == reflect_spec(vector, normal),
            bounded(r, 0x100_0000),
    {
        proof {
            lemma_dot_fx_bound(vector, normal, 0x2_0000);
        }
        let d = vector.dot_fx(&normal);
        proof {
            lemma_comp_quot(2 * d as int, normal.x as int, 0x40_0000, 0x2_0000);
            lemma_comp_quot(2 * d as int, normal.y as int, 0x40_0000, 0x2_0000);
            lemma_comp_quot(2 * d as int, normal.z as int, 0x40_0000, 0x2_0000);
        }
        let s = scale_v(2 * d, normal);
        vector.minus(s)
    }

    /// The refracted direction by the perpendicular/parallel
    /// decomposition, with `etai_over_etat` the ratio of the indices.
    pub fn refract(uv: Vec3, n: Vec3, etai_over_etat: i64) -> (r: Vec3)
        requires
            bounded(uv, 2 * FP_ONE as int),
            bounded(n, 2 * FP_ONE as int),
            0 <= etai_over_etat <= 0x10_0000,
        ensures
            (r.x as int, r.y as int, r.z as int) == refract_spec(uv, n, etai_over_etat as int),
            bounded(r, 0x4000_0000),
    {
        let nuv = uv.neg();
        proof {
            lemma_dot_fx_bound(nuv, n, 0x2_0000);
        }
        let cos_theta_raw = nuv.dot_fx(&n);
        let cos_theta = if cos_theta_raw < FP_ONE {
            cos_theta_raw
        } else {
            FP_ONE
        };
        proof {
            lemma_comp_quot(cos_theta as int, n.x as int, 0x10_0000, 0x2_0000);
            lemma_comp_quot(cos_theta as int, n.y as int, 0x10_0000, 0x2_0000);
            lemma_comp_quot(cos_theta as int, n.z as int, 0x10_0000, 0x2_0000);
        }
        let sc_n = scale_v(cos_theta, n);
        let inner_v = uv.plus(sc_n);
        proof {
            lemma_comp_quot(etai_over_etat as int, inner_v.x as int, 0x10_0000, 0x40_0000);
            lemma_comp_quot(etai_over_etat as int, inner_v.y as int, 0x10_0000, 0x40_0000);
            lemma_comp_quot(etai_over_etat as int, inner_v.z as int, 0x10_0000, 0x40_0000);
        }
        let r_perp = scale_v(etai_over_etat, inner_v);
        proof {
            lemma_dot_fx_bound(r_perp, r_perp, 0x400_0000);
        }
        let sq = r_perp.dot_fx(&r_perp);
        let inner: i64 = FP_ONE - sq;
        let inner_abs: i64 = if inner >= 0 {
            inner
        } else {
            -inner
        };
        proof {
            crate::num::lemma_mul_abs_bound(
                inner_abs as int,
                FP_ONE as int,
                0x100_0000_0000,
                FP_ONE as int,
            );
        }
        let coef: i64 = crate::num::isqrt_u128((inner_abs as u128) * (FP_ONE as u128)) as i64;
        proof {
            lemma_sqrt_within((inner_abs as int) * (FP_ONE as int), coef as int);
            lemma_comp_quot(coef as int, n.x as int, 0x1000_0000, 0x2_0000);
            lemma_comp_quot(coef as int, n.y as int, 0x1000_0000, 0x2_0000);
            lemma_comp_quot(coef as int, n.z as int, 0x1000_0000, 0x2_0000);
        }
        let r_par = scale_v(coef, n).neg();
                r_perp.plus(r_par)
    }
}

/// Magnitude of a fixed-point inner product of two bounded vectors.
proof fn lemma_dot_fx_bound(a: Vec3, b: Vec3, m: int)
    requires
        bounded(a, m),
        bounded(b, m),
        0 < m,
    ensures
        abs(tdiv(dot3(a, b), FP_ONE as int)) <= 3 * m * m / (FP_ONE as int),
{
    crate::num::lemma_mul_abs_bound(a.x as int, b.x as int, m, m);
    crate::num::lemma_mul_abs_bound(a.y as int, b.y as int, m, m);
    crate::num::lemma_mul_abs_bound(a.z as int, b.z as int, m, m);
    assert(3 * (m * m) == 3 * m * m) by (nonlinear_arith);
    assert(m * m >= 0) by (nonlinear_arith)
        requires m > 0;
    crate::num::lemma_tdiv_quot_bound(dot3(a, b), FP_ONE as int, 3 * m * m);
}

/// One scaled component's magnitude: the product bound divided by the
/// scale.
proof fn lemma_comp_quot(a: int, b: int, ma: int, mb: int)
    requires
        abs(a) <= ma,
        abs(b) <= mb,
        0 < ma,
        0 < mb,
    ensures
        -(ma * mb) <= a * b <= ma * mb,
        abs(tdiv(a * b, FP_ONE as int)) <= (ma * mb) / (FP_ONE as int),
{
    crate::num::lemma_mul_abs_bound(a, b, ma, mb);
    assert(ma * mb > 0) by (nonlinear_arith)
        requires 0 < ma && 0 < mb;
    crate::num::lemma_tdiv_quot_bound(a * b, FP_ONE as int, ma * mb);
}

/// The integer square root of a product with `FP_ONE` stays within a
/// fixed-point word.
proof fn lemma_sqrt_within(n: int, c: int)
    requires
        0 <= n <= 0x100_0000_0000_0000,
        is_sqrt_floor(n, c),
    ensures
        0 <= c <= 0x1000_0000,
{
    if c > 0x1000_0000 {
        assert(c * c > 0x1000_0000int * 0x1000_0000int) by (nonlinear_arith)
            requires c > 0x1000_0000;
        assert(false);
    }
}

/// A vector whose components are uniform samples from `[min, max]`.
pub fn random_component_range(min: i64, max: i64) -> (r: Vec3)
    requires
        min <= max,
    ensures
        min <= r.x <= max,
        min <= r.y <= max,
        min <= r.z <= max,
{
    Vec3 {
        x: crate::rng::rand_fx(min, max),
        y: crate::rng::rand_fx(min, max),
        z: crate::rng::rand_fx(min, max),
    }
}

impl Vec3 {
    pub fn random(min: i64, max: i64) -> (r: Vec3)
        requires
            min <= max,
        ensures
            min <= r.x <= max,
            min <= r.y <= max,
            min <= r.z <= max,
    {
        random_component_range(min, max)
    }

    /// Rejection-sample a point strictly inside the unit sphere; after a
    /// bounded number of draws, fall back to a fixed interior point.
    pub fn random_in_unit_sphere() -> (r: Vec3)
        ensures
            bounded(r, FP_ONE as int),
            dot3(r, r) < FP_ONE * FP_ONE,
    {
        let mut tries: usize = 0;
        while tries < 64
            invariant
                tries <= 64,
            decreases 64 - tries,
        {
            let point = Vec3::random(-FP_ONE, FP_ONE);
            let sq = point.dot_wide(&point);
            if sq < (FP_ONE as i128) * (FP_ONE as i128) {
                proof {
                    assert(dot3(point, point) >= 0) by (nonlinear_arith)
                        requires
                            dot3(point, point) == point.x * point.x + point.y * point.y
                                + point.z * point.z,
                    ;
                    lemma_inside_bounded(point);
                }
                return point;
            }
            tries = tries + 1;
        }
        proof {
            assert((FP_ONE as int / 2) * (FP_ONE as int / 2) < FP_ONE * FP_ONE)
                by (nonlinear_arith);
        }
        Vec3 { x: FP_ONE / 2, y: 0, z: 0 }
    }

    /// Rejection-sample a point strictly inside the unit disc of the
    /// x-y plane, with the same bounded fallback.
    pub fn random_in_unit_disc() -> (r: Vec3)
        ensures
            bounded(r, FP_ONE as int),
            dot3(r, r) < FP_ONE * FP_ONE,
            r.z == 0,
    {
        let mut tries: usize = 0;
        while tries < 64
            invariant
                tries <= 64,
            decreases 64 - tries,
        {
            let rnd = Vec3::random(-FP_ONE, FP_ONE);
            let point = Vec3 { x: rnd.x, y: rnd.y, z: 0 };
            let sq = point.dot_wide(&point);
            if sq < (FP_ONE as i128) * (FP_ONE as i128) {
                proof {
                    assert(dot3(point, point) >= 0) by (nonlinear_arith)
                        requires
                            dot3(point, point) == point.x * point.x + point.y * point.y
                                + point.z * point.z,
                    ;
                    lemma_inside_bounded(point);
                }
                return point;
            }
            tries = tries + 1;
        }
        proof {
            assert((FP_ONE as int / 2) * (FP_ONE as int / 2) < FP_ONE * FP_ONE)
                by (nonlinear_arith);
        }
        Vec3 { x: FP_ONE / 2, y: 0, z: 0 }
    }

    /// A unit-sphere sample on the normal's side of the surface.
    pub fn random_in_hemisphere(normal: Vec3) -> (r: Vec3)
        requires
            bounded(normal, 0x4000_0000),
        ensures
            bounded(r, FP_ONE as int),
            dot3(r, normal) >= 0,
    {
        let in_unit_sphere = Vec3::random_in_unit_sphere();
        if in_unit_sphere.dot_wide(&normal) > 0 {
            in_unit_sphere
        } else {
            let r = in_unit_sphere.neg();
            proof {
                assert(dot3(r, normal) == -dot3(in_unit_sphere, normal)) by (nonlinear_arith)
                    requires
                        r.x == -in_unit_sphere.x,
                        r.y == -in_unit_sphere.y,
                        r.z == -in_unit_sphere.z,
                        dot3(r, normal) == r.x * normal.x + r.y * normal.y + r.z * normal.z,
                        dot3(in_unit_sphere, normal) == in_unit_sphere.x * normal.x
                            + in_unit_sphere.y * normal.y + in_unit_sphere.z * normal.z,
                ;
            }
            r
        }
    }
}

/// A point inside the unit sphere has every component inside `[-1, 1]`.
proof fn lemma_inside_bounded(p: Vec3)
    requires
        dot3(p, p) < FP_ONE * FP_ONE,
    ensures
        bounded(p, FP_ONE as int),
{
    assert(p.x * p.x <= dot3(p, p)) by (nonlinear_arith)
        requires dot3(p, p) == p.x * p.x + p.y * p.y + p.z * p.z;
    assert(p.y * p.y <= dot3(p, p)) by (nonlinear_arith)
        requires dot3(p, p) == p.x * p.x + p.y * p.y + p.z * p.z;
    assert(p.z * p.z <= dot3(p, p)) by (nonlinear_arith)
        requires dot3(p, p) == p.x * p.x + p.y * p.y + p.z * p.z;
    assert(abs(p.x as int) <= FP_ONE) by {
        if abs(p.x as int) > FP_ONE {
            assert(p.x * p.x > FP_ONE * FP_ONE) by (nonlinear_arith)
                requires abs(p.x as int) > FP_ONE;
            assert(false);
        }
    };
    assert(abs(p.y as int) <= FP_ONE) by {
        if abs(p.y as int) > FP_ONE {
            assert(p.y * p.y > FP_ONE * FP_ONE) by (nonlinear_arith)
                requires abs(p.y as int) > FP_ONE;
            assert(false);
        }
    };
    assert(abs(p.z as int) <= FP_ONE) by {
        if abs(p.z as int) > FP_ONE {
            assert(p.z * p.z > FP_ONE * FP_ONE) by (nonlinear_arith)
                requires abs(p.z as int) > FP_ONE;
            assert(false);
        }
    };
}


/// Whatever the integer vector, its normalization stays within one unit
/// per component.
pub proof fn lemma_unit_spec_bounded(x: int, y: int, z: int)
    ensures
        abs(unit_spec(x, y, z).0) <= FP_ONE,
        abs(unit_spec(x, y, z).1) <= FP_ONE,
        abs(unit_spec(x, y, z).2) <= FP_ONE,
{
    assert(x * x >= 0 && y * y >= 0 && z * z >= 0) by (nonlinear_arith);
    crate::num::lemma_sqrt_floor_exists(x * x + y * y + z * z);
    let n = sqrt_floor(x * x + y * y + z * z);
    if n != 0 {
        lemma_normalize_comp_bound(x, y, z, n);
        lemma_normalize_comp_bound(y, x, z, n);
        lemma_normalize_comp_bound(z, y, x, n);
    }
}

} // verus!
