//! The closed set of primitive kinds, with exhaustive matching in place of
//! dynamic dispatch, and the facts about a primitive's reported parameter
//! that nearest-hit traversal rests on.

use vstd::prelude::*;

pub mod aabb;
pub mod bvh;
pub mod helpers;
pub mod mesh;
pub mod nullobject;
pub mod sphere;
pub mod triangle;
pub mod world;

verus! {

use crate::utils::ray::{Ray, ray_wf};
use crate::behaviors::intersect::IntersectResult;
use crate::objects::aabb::{Aabb, slab_pass, box_wf};
use crate::objects::sphere::{Sphere, sphere_wf, sphere_bbox_spec, sphere_first_t, sphere_result};
use crate::objects::triangle::{
    Triangle, triangle_wf, tri_bbox_spec, tri_first_t, tri_raw, tri_result,
};
use crate::objects::mesh::{Mesh, mesh_wf, mesh_bbox_fold};
use vstd::math::abs;

#[derive(Clone, Debug)]
pub enum Object {
    Sphere(Sphere),
    Triangle(Triangle),
    Mesh(Mesh),
}

pub open spec fn obj_wf(o: Object) -> bool {
    match o {
        Object::Sphere(s) => sphere_wf(s),
        Object::Triangle(t) => triangle_wf(t),
        Object::Mesh(m) => mesh_wf(m),
    }
}

pub open spec fn obj_is_mesh(o: Object) -> bool {
    o is Mesh
}

pub open spec fn obj_bbox_spec(o: Object) -> Aabb {
    match o {
        Object::Sphere(s) => sphere_bbox_spec(s),
        Object::Triangle(t) => tri_bbox_spec(t),
        Object::Mesh(m) => mesh_bbox_fold(m.vertices@),
    }
}

/// The parameter this primitive reports for a query over `[t_min, t_max]`,
/// if any. An undivided mesh reports nothing; querying one is a contract
/// violation that `Object::intersect` excludes.
pub open spec fn obj_first_t(o: Object, r: Ray, t_min: int, t_max: int) -> Option<int> {
    match o {
        Object::Sphere(s) => sphere_first_t(s, r, t_min, t_max),
        Object::Triangle(t) => tri_first_t(t, r, t_min, t_max),
        Object::Mesh(m) => None,
    }
}

/// The record reported along with the parameter of `obj_first_t`.
pub open spec fn obj_hit_record(o: Object, r: Ray, t_min: int, t_max: int) -> IntersectResult {
    match o {
        Object::Sphere(s) => sphere_result(s, r, sphere_first_t(s, r, t_min, t_max)->0),
        Object::Triangle(t) => {
            let (tt, u, v) = tri_raw(t.v0, t.v1, t.v2, false, r)->0;
            tri_result(t, r, tt, u, v)
        },
        Object::Mesh(m) => IntersectResult {
            t: 0,
            point: crate::utils::vector::Vec3 { x: 0, y: 0, z: 0 },
            normal: crate::utils::vector::Vec3 { x: 0, y: 0, z: 0 },
            front_face: false,
            material: 0,
        },
    }
}

impl Object {
    pub fn bbox(&self) -> (b: Aabb)
        requires
            obj_wf(*self),
        ensures
            b == obj_bbox_spec(*self),
            !obj_is_mesh(*self) ==> box_wf(b),
    {
        match self {
            Object::Sphere(s) => s.bounding_box(),
            Object::Triangle(t) => t.bbox(),
            Object::Mesh(m) => m.bbox(),
        }
    }

    /// Nearest reported parameter in `[t_min, t_max]`, with its record.
    /// Must not be called on an undivided mesh.
    pub fn intersect(&self, ray: &Ray, t_min: i64, t_max: i64) -> (res: Option<IntersectResult>)
        requires
            obj_wf(*self),
            !obj_is_mesh(*self),
            ray_wf(*ray),
            0 <= t_min,
            t_max <= 0x100_0000_0000,
        ensures
            (res is Some) == (obj_first_t(*self, *ray, t_min as int, t_max as int) is Some),
            res is Some ==> res->0 == obj_hit_record(*self, *ray, t_min as int, t_max as int),
            res is Some ==> t_min <= res->0.t <= t_max
                && res->0.t == obj_first_t(*self, *ray, t_min as int, t_max as int)->0,
    {
        match self {
            Object::Sphere(s) => s.intersect(ray, t_min, t_max),
            Object::Triangle(t) => t.intersect(ray, t_min, t_max),
            Object::Mesh(m) => None,
        }
    }

    /// A mesh divides into its triangles; other primitives do not divide.
    pub fn divide(&self) -> (r: Option<Vec<Object>>)
        requires
            obj_wf(*self),
        ensures
            (r is Some) == obj_is_mesh(*self),
            r is Some ==> {
                let m = self->Mesh_0;
                r->0@.len() == m.index_amt as int / 3 && forall|j: int|
                    0 <= j < r->0@.len() ==> #[trigger] r->0@[j] == Object::Triangle(
                        crate::objects::mesh::mesh_tri(m, j),
                    )
            },
    {
        match self {
            Object::Mesh(m) => Some(m.divide()),
            Object::Sphere(s) => None,
            Object::Triangle(t) => None,
        }
    }
}

/// Shrinking the upper end of the query range keeps every reported
/// parameter that still lies inside it, reports nothing that the full
/// range did not report, and loses only parameters beyond the cut.
pub proof fn lemma_obj_restrict(o: Object, r: Ray, t_min: int, t_max: int, t_cut: int)
    requires
        t_cut <= t_max,
    ensures
        obj_first_t(o, r, t_min, t_max) is None ==> obj_first_t(o, r, t_min, t_cut) is None,
        obj_first_t(o, r, t_min, t_max) is Some && obj_first_t(o, r, t_min, t_max)->0 <= t_cut
            ==> obj_first_t(o, r, t_min, t_cut) == obj_first_t(o, r, t_min, t_max),
        obj_first_t(o, r, t_min, t_max) is Some && obj_first_t(o, r, t_min, t_max)->0 > t_cut
            ==> obj_first_t(o, r, t_min, t_cut) is None,
        obj_first_t(o, r, t_min, t_cut) is Some ==> obj_first_t(o, r, t_min, t_max)
            == obj_first_t(o, r, t_min, t_cut),
        obj_first_t(o, r, t_min, t_cut) is Some ==> obj_hit_record(o, r, t_min, t_cut)
            == obj_hit_record(o, r, t_min, t_max),
{
    match o {
        Object::Sphere(s) => {
            if crate::objects::sphere::sphere_roots(s, r) is Some {
                crate::objects::sphere::lemma_sphere_roots_ordered(s, r);
            }
        },
        Object::Triangle(t) => {},
        Object::Mesh(m) => {},
    }
}

/// A primitive whose own box fails the forward-range slab test reports
/// nothing over any query range: pruning by an enclosing box is sound.
pub proof fn lemma_obj_box_gate(o: Object, r: Ray, t_min: int, t_max: int)
    requires
        !slab_pass(obj_bbox_spec(o), r, 0, i64::MAX as int),
    ensures
        obj_first_t(o, r, t_min, t_max) is None,
{
}


/// The material index a primitive shades with.
pub open spec fn obj_material(o: Object) -> int {
    match o {
        Object::Sphere(s) => s.material as int,
        Object::Triangle(t) => t.material as int,
        Object::Mesh(m) => m.material as int,
    }
}

/// Any record a primitive reports carries its own material index, a
/// normal of at most unit length, and a point on the bounded grid.
pub proof fn lemma_hit_record_ok(o: Object, r: Ray, t_min: int, t_max: int)
    requires
        obj_wf(o),
        !obj_is_mesh(o),
        ray_wf(r),
        0 <= t_min,
        t_max <= 0x100_0000_0000,
        obj_first_t(o, r, t_min, t_max) is Some,
    ensures
        obj_hit_record(o, r, t_min, t_max).material == obj_material(o),
        crate::utils::vector::bounded(obj_hit_record(o, r, t_min, t_max).normal, crate::FP_ONE as int),
        crate::utils::vector::bounded(obj_hit_record(o, r, t_min, t_max).point, 0x100_0000_0000_0000),
        obj_hit_record(o, r, t_min, t_max).t == obj_first_t(o, r, t_min, t_max)->0,
        t_min <= obj_hit_record(o, r, t_min, t_max).t <= t_max,
{
    let t = obj_first_t(o, r, t_min, t_max)->0;
    lemma_at_spec_bounded(r, t);
    match o {
        Object::Sphere(s) => {
            let p = crate::utils::ray::at_spec(r, t);
            crate::utils::vector::lemma_unit_spec_bounded(
                p.0 - s.center.x,
                p.1 - s.center.y,
                p.2 - s.center.z,
            );
        },
        Object::Triangle(tr) => {
            let (tt, u, v) = tri_raw(tr.v0, tr.v1, tr.v2, false, r)->0;
            let ow = crate::objects::triangle::tri_outward_spec(tr, u, v);
            match tr.normals {
                Some(ns) => {
                    let w0 = crate::FP_ONE - u - v;
                    crate::utils::vector::lemma_unit_spec_bounded(
                        crate::num::tdiv(w0 * ns.n0.x, crate::FP_ONE as int) + crate::num::tdiv(
                            u * ns.n1.x,
                            crate::FP_ONE as int,
                        ) + crate::num::tdiv(v * ns.n2.x, crate::FP_ONE as int),
                        crate::num::tdiv(w0 * ns.n0.y, crate::FP_ONE as int) + crate::num::tdiv(
                            u * ns.n1.y,
                            crate::FP_ONE as int,
                        ) + crate::num::tdiv(v * ns.n2.y, crate::FP_ONE as int),
                        crate::num::tdiv(w0 * ns.n0.z, crate::FP_ONE as int) + crate::num::tdiv(
                            u * ns.n1.z,
                            crate::FP_ONE as int,
                        ) + crate::num::tdiv(v * ns.n2.z, crate::FP_ONE as int),
                    );
                },
                None => {
                    let e1 = crate::utils::vector::Vec3 {
                        x: (tr.v1.x - tr.v0.x) as i64,
                        y: (tr.v1.y - tr.v0.y) as i64,
                        z: (tr.v1.z - tr.v0.z) as i64,
                    };
                    let e2 = crate::utils::vector::Vec3 {
                        x: (tr.v2.x - tr.v0.x) as i64,
                        y: (tr.v2.y - tr.v0.y) as i64,
                        z: (tr.v2.z - tr.v0.z) as i64,
                    };
                    crate::utils::vector::lemma_unit_spec_bounded(
                        crate::utils::vector::cross_x(e1, e2),
                        crate::utils::vector::cross_y(e1, e2),
                        crate::utils::vector::cross_z(e1, e2),
                    );
                },
            }
        },
        Object::Mesh(m) => {},
    }
}

/// Points reached within the allowed parameter range stay on the bounded
/// grid.
proof fn lemma_at_spec_bounded(r: Ray, t: int)
    requires
        ray_wf(r),
        abs(t) <= 0x100_0000_0000,
    ensures
        abs(crate::utils::ray::at_spec(r, t).0) < 0x100_0000_0000_0000,
        abs(crate::utils::ray::at_spec(r, t).1) < 0x100_0000_0000_0000,
        abs(crate::utils::ray::at_spec(r, t).2) < 0x100_0000_0000_0000,
{
    crate::num::lemma_mul_abs_bound(t, r.direction.x as int, 0x100_0000_0000, 0x4000_0000);
    crate::num::lemma_mul_abs_bound(t, r.direction.y as int, 0x100_0000_0000, 0x4000_0000);
    crate::num::lemma_mul_abs_bound(t, r.direction.z as int, 0x100_0000_0000, 0x4000_0000);
    crate::num::lemma_tdiv_quot_bound(
        t * r.direction.x,
        crate::FP_ONE as int,
        0x400_0000_0000_0000_0000,
    );
    crate::num::lemma_tdiv_quot_bound(
        t * r.direction.y,
        crate::FP_ONE as int,
        0x400_0000_0000_0000_0000,
    );
    crate::num::lemma_tdiv_quot_bound(
        t * r.direction.z,
        crate::FP_ONE as int,
        0x400_0000_0000_0000_0000,
    );
}

} // verus!
