//! Axis-aligned bounding boxes and the slab intersection test.
//!
//! The test reports whether the interval of ray parameters that stays
//! inside the box overlaps `(t_min, t_max)`, shrinking the running interval
//! one axis at a time. A zero direction component constrains nothing when
//! the origin lies between the slabs of that axis and everything when it
//! lies outside them, which is exactly how the reciprocal form behaves with
//! infinite reciprocals.

use vstd::prelude::*;

verus! {

use crate::{FP_ONE, POS_LIMIT};
use crate::num::{tdiv, div_i64};
use crate::utils::vector::{Vec3, bounded};
use crate::utils::ray::{Ray, ray_wf};
use vstd::math::{abs, min, max};

#[derive(Clone, Copy, Debug, PartialEq, Eq, Structural)]
pub struct Aabb {
    pub lower: Vec3,
    pub upper: Vec3,
}

/// Largest coordinate magnitude allowed for the corner of a real (non-null)
/// box handed to the slab test.
pub const BOX_LIMIT: i64 = 0x4000_0000;

/// A box the slab test accepts: both corners on the bounded grid.
pub open spec fn box_wf(b: Aabb) -> bool {
    bounded(b.lower, BOX_LIMIT as int) && bounded(b.upper, BOX_LIMIT as int)
}

/// `inner` lies within `outer`, component by component.
pub open spec fn box_contains(outer: Aabb, inner: Aabb) -> bool {
    &&& outer.lower.x <= inner.lower.x
    &&& outer.lower.y <= inner.lower.y
    &&& outer.lower.z <= inner.lower.z
    &&& inner.upper.x <= outer.upper.x
    &&& inner.upper.y <= outer.upper.y
    &&& inner.upper.z <= outer.upper.z
}

/// The component-wise merge of two boxes.
pub open spec fn merge_spec(a: Aabb, b: Aabb) -> Aabb {
    Aabb {
        lower: Vec3 {
            x: min(a.lower.x as int, b.lower.x as int) as i64,
            y: min(a.lower.y as int, b.lower.y as int) as i64,
            z: min(a.lower.z as int, b.lower.z as int) as i64,
        },
        upper: Vec3 {
            x: max(a.upper.x as int, b.upper.x as int) as i64,
            y: max(a.upper.y as int, b.upper.y as int) as i64,
            z: max(a.upper.z as int, b.upper.z as int) as i64,
        },
    }
}

/// Entry parameter of one axis' slab: where the ray crosses the nearer of
/// the two planes, in ray-parameter units (fixed point, truncating).
pub open spec fn axis_lo(lo: int, hi: int, o: int, d: int) -> int
    recommends
        d != 0,
{
    if d > 0 {
        tdiv((lo - o) * FP_ONE, d)
    } else {
        tdiv((hi - o) * FP_ONE, d)
    }
}

/// Exit parameter of one axis' slab.
pub open spec fn axis_hi(lo: int, hi: int, o: int, d: int) -> int
    recommends
        d != 0,
{
    if d > 0 {
        tdiv((hi - o) * FP_ONE, d)
    } else {
        tdiv((lo - o) * FP_ONE, d)
    }
}

/// The greatest entry parameter over `t_min` and the axes the ray crosses.
pub open spec fn slab_lo(b: Aabb, r: Ray, t_min: int) -> int {
    let l1 = if r.direction.x != 0 {
        max(t_min, axis_lo(b.lower.x as int, b.upper.x as int, r.origin.x as int, r.direction.x as int))
    } else {
        t_min
    };
    let l2 = if r.direction.y != 0 {
        max(l1, axis_lo(b.lower.y as int, b.upper.y as int, r.origin.y as int, r.direction.y as int))
    } else {
        l1
    };
    if r.direction.z != 0 {
        max(l2, axis_lo(b.lower.z as int, b.upper.z as int, r.origin.z as int, r.direction.z as int))
    } else {
        l2
    }
}

/// The least exit parameter over `t_max` and the axes the ray crosses.
pub open spec fn slab_hi(b: Aabb, r: Ray, t_max: int) -> int {
    let h1 = if r.direction.x != 0 {
        min(t_max, axis_hi(b.lower.x as int, b.upper.x as int, r.origin.x as int, r.direction.x as int))
    } else {
        t_max
    };
    let h2 = if r.direction.y != 0 {
        min(h1, axis_hi(b.lower.y as int, b.upper.y as int, r.origin.y as int, r.direction.y as int))
    } else {
        h1
    };
    if r.direction.z != 0 {
        min(h2, axis_hi(b.lower.z as int, b.upper.z as int, r.origin.z as int, r.direction.z as int))
    } else {
        h2
    }
}

/// The slab test succeeds: along every axis the ray is either between the
/// slabs (zero direction component) or crosses them, and the entry
/// parameters stay strictly below the exit parameters.
pub open spec fn slab_pass(b: Aabb, r: Ray, t_min: int, t_max: int) -> bool {
    &&& (r.direction.x == 0 ==> b.lower.x <= r.origin.x <= b.upper.x)
    &&& (r.direction.y == 0 ==> b.lower.y <= r.origin.y <= b.upper.y)
    &&& (r.direction.z == 0 ==> b.lower.z <= r.origin.z <= b.upper.z)
    &&& slab_lo(b, r, t_min) < slab_hi(b, r, t_max)
}

impl Aabb {
    /// The slab test: `Some` holds the entry parameter (the shrunken
    /// interval's lower end), usable to order subtree visits.
    pub fn intersect(&self, ray: &Ray, t_min: i64, t_max: i64) -> (res: Option<i64>)
        requires
            box_wf(*self),
            ray_wf(*ray),
        ensures
            (res is Some) == slab_pass(*self, *ray, t_min as int, t_max as int),
            res is Some ==> res->0 == slab_lo(*self, *ray, t_min as int),
    {
        let o = ray.origin();
        let d = ray.direction();
        let mut t0: i64 = t_min;
        let mut t1: i64 = t_max;

        // x axis
        if d.x == 0 {
            if o.x < self.lower.x || o.x > self.upper.x {
                return None;
            }
        } else {
            let (alo, ahi) = axis_range(self.lower.x, self.upper.x, o.x, d.x);
            if alo > t0 {
                t0 = alo;
            }
            if ahi < t1 {
                t1 = ahi;
            }
        }
        if t1 <= t0 {
            return None;
        }

        // y axis
        if d.y == 0 {
            if o.y < self.lower.y || o.y > self.upper.y {
                return None;
            }
        } else {
            let (alo, ahi) = axis_range(self.lower.y, self.upper.y, o.y, d.y);
            if alo > t0 {
                t0 = alo;
            }
            if ahi < t1 {
                t1 = ahi;
            }
        }
        if t1 <= t0 {
            return None;
        }

        // z axis
        if d.z == 0 {
            if o.z < self.lower.z || o.z > self.upper.z {
                return None;
            }
        } else {
            let (alo, ahi) = axis_range(self.lower.z, self.upper.z, o.z, d.z);
            if alo > t0 {
                t0 = alo;
            }
            if ahi < t1 {
                t1 = ahi;
            }
        }
        if t1 <= t0 {
            return None;
        }

        Some(t0)
    }

    /// Component-wise minimum of lower corners and maximum of upper
    /// corners. The null box is its identity element.
    pub fn merge(self, other: Self) -> (r: Self)
        ensures
            r == merge_spec(self, other),
    {
        Self {
            lower: Vec3::new(
                if self.lower.x < other.lower.x { self.lower.x } else { other.lower.x },
                if self.lower.y < other.lower.y { self.lower.y } else { other.lower.y },
                if self.lower.z < other.lower.z { self.lower.z } else { other.lower.z },
            ),
            upper: Vec3::new(
                if self.upper.x > other.upper.x { self.upper.x } else { other.upper.x },
                if self.upper.y > other.upper.y { self.upper.y } else { other.upper.y },
                if self.upper.z > other.upper.z { self.upper.z } else { other.upper.z },
            ),
        }
    }

    /// The midpoint of the box, truncating toward the lower corner.
    pub fn centroid(&self) -> (c: Vec3)
        requires
            box_wf(*self),
        ensures
            c.x == tdiv(self.lower.x + self.upper.x, 2),
            c.y == tdiv(self.lower.y + self.upper.y, 2),
            c.z == tdiv(self.lower.z + self.upper.z, 2),
            self.lower.x <= self.upper.x ==> self.lower.x <= c.x <= self.upper.x,
            self.lower.y <= self.upper.y ==> self.lower.y <= c.y <= self.upper.y,
            self.lower.z <= self.upper.z ==> self.lower.z <= c.z <= self.upper.z,
            bounded(c, BOX_LIMIT as int),
    {
        proof {
            crate::num::lemma_tdiv_quot_bound(
                self.lower.x + self.upper.x, 2, 2 * BOX_LIMIT as int);
            crate::num::lemma_tdiv_quot_bound(
                self.lower.y + self.upper.y, 2, 2 * BOX_LIMIT as int);
            crate::num::lemma_tdiv_quot_bound(
                self.lower.z + self.upper.z, 2, 2 * BOX_LIMIT as int);
            if self.lower.x <= self.upper.x {
                crate::num::lemma_tdiv_mid(self.lower.x as int, self.upper.x as int);
            }
            if self.lower.y <= self.upper.y {
                crate::num::lemma_tdiv_mid(self.lower.y as int, self.upper.y as int);
            }
            if self.lower.z <= self.upper.z {
                crate::num::lemma_tdiv_mid(self.lower.z as int, self.upper.z as int);
            }
        }
        Vec3::new(
            div_i64(self.lower.x + self.upper.x, 2),
            div_i64(self.lower.y + self.upper.y, 2),
            div_i64(self.lower.z + self.upper.z, 2),
        )
    }

    /// The diagonal from the lower to the upper corner.
    pub fn diagonal(&self) -> (d: Vec3)
        requires
            box_wf(*self),
        ensures
            d.x == self.upper.x - self.lower.x,
            d.y == self.upper.y - self.lower.y,
            d.z == self.upper.z - self.lower.z,
    {
        Vec3::new(
            self.upper.x - self.lower.x,
            self.upper.y - self.lower.y,
            self.upper.z - self.lower.z,
        )
    }

    /// Half-surface-area proxy used by the split heuristic, exact over the
    /// wide integers (carries scale squared).
    pub fn area(&self) -> (a: i128)
        requires
            box_wf(*self),
        ensures
            a == area_spec(*self),
    {
        let dx: i128 = (self.upper.x - self.lower.x) as i128;
        let dy: i128 = (self.upper.y - self.lower.y) as i128;
        let dz: i128 = (self.upper.z - self.lower.z) as i128;
        proof {
            let m: int = 0x1_0000_0000_0000;
            crate::num::lemma_mul_abs_bound(dx as int, dy as int, m, m);
            crate::num::lemma_mul_abs_bound(dx as int, dz as int, m, m);
            crate::num::lemma_mul_abs_bound(dy as int, dz as int, m, m);
        }
        2 * (dx * dy + dx * dz + dy * dz)
    }

    /// The axis of largest extent: x wins ties against y and z, y against z.
    pub fn max_extent(&self) -> (axis: usize)
        requires
            box_wf(*self),
        ensures
            axis == max_extent_spec(*self),
            axis < 3,
    {
        let dx: i64 = self.upper.x - self.lower.x;
        let dy: i64 = self.upper.y - self.lower.y;
        let dz: i64 = self.upper.z - self.lower.z;
        if dx > dy && dx > dz {
            0
        } else if dy > dz {
            1
        } else {
            2
        }
    }

    /// The point's position within the box, normalized into `[0, 1]` per
    /// axis (fixed point, truncating); an axis without extent leaves that
    /// component unscaled.
    pub fn offset(&self, p: Vec3) -> (o: Vec3)
        requires
            box_wf(*self),
            bounded(p, BOX_LIMIT as int),
        ensures
            o.x == offset_axis(self.lower.x as int, self.upper.x as int, p.x as int),
            o.y == offset_axis(self.lower.y as int, self.upper.y as int, p.y as int),
            o.z == offset_axis(self.lower.z as int, self.upper.z as int, p.z as int),
    {
        proof {
            lemma_offset_axis(self.lower.x as int, self.upper.x as int, p.x as int);
            lemma_offset_axis(self.lower.y as int, self.upper.y as int, p.y as int);
            lemma_offset_axis(self.lower.z as int, self.upper.z as int, p.z as int);
        }
        let ox = if self.upper.x > self.lower.x {
            div_i64((p.x - self.lower.x) * FP_ONE, self.upper.x - self.lower.x)
        } else {
            p.x - self.lower.x
        };
        let oy = if self.upper.y > self.lower.y {
            div_i64((p.y - self.lower.y) * FP_ONE, self.upper.y - self.lower.y)
        } else {
            p.y - self.lower.y
        };
        let oz = if self.upper.z > self.lower.z {
            div_i64((p.z - self.lower.z) * FP_ONE, self.upper.z - self.lower.z)
        } else {
            p.z - self.lower.z
        };
        Vec3 { x: ox, y: oy, z: oz }
    }

    /// The empty box: merging it with any box yields that box.
    pub fn null() -> (b: Self)
        ensures
            b.lower == (Vec3 { x: i64::MAX, y: i64::MAX, z: i64::MAX }),
            b.upper == (Vec3 { x: i64::MIN, y: i64::MIN, z: i64::MIN }),
    {
        Self { lower: Vec3::inf(), upper: Vec3::neg_inf() }
    }
}

/// Half surface area of the box, exact (scale squared).
pub open spec fn area_spec(b: Aabb) -> int {
    let dx = b.upper.x - b.lower.x;
    let dy = b.upper.y - b.lower.y;
    let dz = b.upper.z - b.lower.z;
    2 * (dx * dy + dx * dz + dy * dz)
}

/// The axis whose diagonal component is largest, ties broken toward x.
pub open spec fn max_extent_spec(b: Aabb) -> int {
    let dx = b.upper.x - b.lower.x;
    let dy = b.upper.y - b.lower.y;
    let dz = b.upper.z - b.lower.z;
    if dx > dy && dx > dz {
        0
    } else if dy > dz {
        1
    } else {
        2
    }
}

/// One axis of `offset`: the normalized position between the planes.
pub open spec fn offset_axis(lo: int, hi: int, p: int) -> int {
    if hi > lo {
        tdiv((p - lo) * FP_ONE, hi - lo)
    } else {
        p - lo
    }
}

/// The scaled numerator of one `offset` axis stays in range.
proof fn lemma_offset_axis(lo: int, hi: int, p: int)
    requires
        abs(lo) <= BOX_LIMIT as int,
        abs(hi) <= BOX_LIMIT as int,
        abs(p) <= BOX_LIMIT as int,
    ensures
        abs((p - lo) * FP_ONE) <= 0x8000_0000int * FP_ONE,
        hi > lo ==> abs(tdiv((p - lo) * FP_ONE, hi - lo)) <= 0x8000_0000int * FP_ONE,
{
    crate::num::lemma_mul_abs_bound(p - lo, FP_ONE as int, 0x8000_0000, FP_ONE as int);
    if hi > lo {
        crate::num::lemma_tdiv_quot_bound(
            (p - lo) * FP_ONE,
            hi - lo,
            0x8000_0000int * FP_ONE as int,
        );
        vstd::arithmetic::div_mod::lemma_div_is_ordered_by_denominator(
            0x8000_0000int * FP_ONE as int,
            1,
            hi - lo,
        );
    }
}

/// Entry and exit parameters of one axis' slab, ordered by the direction's
/// sign.
fn axis_range(lo: i64, hi: i64, o: i64, d: i64) -> (r: (i64, i64))
    requires
        d != 0,
        abs(lo as int) <= BOX_LIMIT as int,
        abs(hi as int) <= BOX_LIMIT as int,
        abs(o as int) <= POS_LIMIT as int,
        abs(d as int) <= crate::DIR_LIMIT as int,
    ensures
        r.0 == axis_lo(lo as int, hi as int, o as int, d as int),
        r.1 == axis_hi(lo as int, hi as int, o as int, d as int),
{
    proof {
        crate::num::lemma_mul_abs_bound((lo - o) as int, FP_ONE as int, 0x6000_0000, FP_ONE as int);
        crate::num::lemma_mul_abs_bound((hi - o) as int, FP_ONE as int, 0x6000_0000, FP_ONE as int);
    }
    let ta: i64 = div_i64((lo - o) * FP_ONE, d);
    let tb: i64 = div_i64((hi - o) * FP_ONE, d);
    if d > 0 {
        (ta, tb)
    } else {
        (tb, ta)
    }
}

/// Merging with the null box changes nothing: it is the identity element
/// of `merge`.
pub proof fn lemma_merge_null_identity(a: Aabb)
    ensures
        merge_spec(a, Aabb { lower: Vec3 { x: i64::MAX, y: i64::MAX, z: i64::MAX }, upper: Vec3 { x: i64::MIN, y: i64::MIN, z: i64::MIN } }) == a,
        merge_spec(Aabb { lower: Vec3 { x: i64::MAX, y: i64::MAX, z: i64::MAX }, upper: Vec3 { x: i64::MIN, y: i64::MIN, z: i64::MIN } }, a) == a,
{
}

/// A ray that passes the slab test of a box passes it for any box that
/// contains that box, over the same parameter range: pruning by an
/// enclosing box never loses a hit.
pub proof fn lemma_slab_widen(outer: Aabb, inner: Aabb, r: Ray, t_min: int, t_max: int)
    requires
        box_contains(outer, inner),
        box_wf(outer),
        box_wf(inner),
        ray_wf(r),
        slab_pass(inner, r, t_min, t_max),
    ensures
        slab_pass(outer, r, t_min, t_max),
{
    lemma_axis_widen(
        outer.lower.x as int, outer.upper.x as int,
        inner.lower.x as int, inner.upper.x as int,
        r.origin.x as int, r.direction.x as int,
    );
    lemma_axis_widen(
        outer.lower.y as int, outer.upper.y as int,
        inner.lower.y as int, inner.upper.y as int,
        r.origin.y as int, r.direction.y as int,
    );
    lemma_axis_widen(
        outer.lower.z as int, outer.upper.z as int,
        inner.lower.z as int, inner.upper.z as int,
        r.origin.z as int, r.direction.z as int,
    );
}

/// Widening one axis' slab moves its entry parameter down and its exit
/// parameter up.
proof fn lemma_axis_widen(olo: int, ohi: int, ilo: int, ihi: int, o: int, d: int)
    requires
        olo <= ilo,
        ihi <= ohi,
    ensures
        d != 0 ==> axis_lo(olo, ohi, o, d) <= axis_lo(ilo, ihi, o, d),
        d != 0 ==> axis_hi(ilo, ihi, o, d) <= axis_hi(olo, ohi, o, d),
{
    if d > 0 {
        assert((olo - o) * FP_ONE <= (ilo - o) * FP_ONE) by (nonlinear_arith)
            requires olo <= ilo && FP_ONE > 0;
        assert((ihi - o) * FP_ONE <= (ohi - o) * FP_ONE) by (nonlinear_arith)
            requires ihi <= ohi && FP_ONE > 0;
        crate::num::lemma_tdiv_mono((olo - o) * FP_ONE, (ilo - o) * FP_ONE, d);
        crate::num::lemma_tdiv_mono((ihi - o) * FP_ONE, (ohi - o) * FP_ONE, d);
    } else if d < 0 {
        assert((olo - o) * FP_ONE <= (ilo - o) * FP_ONE) by (nonlinear_arith)
            requires olo <= ilo && FP_ONE > 0;
        assert((ihi - o) * FP_ONE <= (ohi - o) * FP_ONE) by (nonlinear_arith)
            requires ihi <= ohi && FP_ONE > 0;
        crate::num::lemma_tdiv_anti((olo - o) * FP_ONE, (ilo - o) * FP_ONE, d);
        crate::num::lemma_tdiv_anti((ihi - o) * FP_ONE, (ohi - o) * FP_ONE, d);
    }
}

} // verus!
