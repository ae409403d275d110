//! A Monte Carlo path tracer core over fixed-point arithmetic.
//!
//! All geometry lives on a signed fixed-point grid: a value `v: i64` stands
//! for the real number `v / FP_ONE`. Every routine of the core states its
//! result exactly over the mathematical integers, so that the bounding-volume
//! hierarchy can be proved to return the same nearest hit as a brute-force
//! scan over the primitive list.

use vstd::prelude::*;

pub mod behaviors;
pub mod materials;
pub mod num;
pub mod objects;
pub mod rng;
pub mod utils;

verus! {

/// Fixed-point scale: one world unit.
pub const FP_ONE: i64 = 65536;

/// Largest magnitude allowed for a position coordinate or a sphere radius.
pub const POS_LIMIT: i64 = 0x2000_0000;

/// Largest magnitude allowed for a ray-direction component.
pub const DIR_LIMIT: i64 = 0x4000_0000;

/// Offset applied along the normal to a scattered ray's origin, to step
/// over the surface just hit (about 0.005 world units).
pub const BIAS: i64 = 328;

/// Smallest ray parameter a path query accepts, to step over the surface
/// the ray just left (about 0.0001 world units).
pub const T_MIN: i64 = 7;

/// Ray parameter standing in for an unbounded query range.
pub const T_FAR: i64 = 0x100_0000_0000;

/// The fixed low-intensity backdrop returned for rays that leave the
/// scene (about 0.001 per channel).
pub const BG_RADIANCE: i64 = 66;

use crate::utils::vector::{Vec3, hadamard_fx};
use crate::utils::ray::{Ray, ray_wf, ray_ok};
use crate::objects::{Object, obj_material};
use crate::objects::world::scene_wf;
use crate::objects::bvh::{BvhNode, tree_wf, in_subtree};
use crate::materials::{Material, mat_wf, EMIT_LIMIT};

/// Every primitive's material index points into the material list.
pub open spec fn mats_cover(objects: Seq<Object>, n_mats: int) -> bool {
    forall|i: int| 0 <= i < objects.len() ==> obj_material(#[trigger] objects[i]) < n_mats
}

/// Linear radiance accumulated along a path of at most `depth` bounces:
/// non-negative and at most the emitters' total plus the backdrop.
pub open spec fn radiance_ok(c: Vec3, depth: int) -> bool {
    &&& 0 <= c.x <= depth * (EMIT_LIMIT as int) + BG_RADIANCE
    &&& 0 <= c.y <= depth * (EMIT_LIMIT as int) + BG_RADIANCE
    &&& 0 <= c.z <= depth * (EMIT_LIMIT as int) + BG_RADIANCE
}

/// What the hit branch owes: some primitive of the scene reports the
/// nearest parameter of the query, and the sample's radiance dominates
/// that primitive's material's emission channel for channel — with
/// equality when that material is a light, since lights never scatter.
pub open spec fn hit_radiance_ok(
    nodes: Seq<BvhNode>,
    objects: Seq<Object>,
    materials: Seq<Material>,
    root: int,
    r: Ray,
    c: Vec3,
) -> bool {
    exists|j: int|
        {
            &&& #[trigger] in_subtree(nodes, root, j)
            &&& 0 <= j < objects.len()
            &&& crate::objects::obj_first_t(objects[j], r, T_MIN as int, T_FAR as int) is Some
            &&& crate::objects::bvh::subtree_hit_min(
                nodes,
                objects,
                root,
                r,
                T_MIN as int,
                T_FAR as int,
                crate::objects::obj_first_t(objects[j], r, T_MIN as int, T_FAR as int)->0,
            )
            &&& c.x >= crate::materials::emit_spec(materials[obj_material(objects[j])]).x
            &&& c.y >= crate::materials::emit_spec(materials[obj_material(objects[j])]).y
            &&& c.z >= crate::materials::emit_spec(materials[obj_material(objects[j])]).z
            &&& (materials[obj_material(objects[j])] is DiffuseLight ==> c == crate::materials::emit_spec(
                materials[obj_material(objects[j])],
            ))
        }
}

/// One path-tracing sample: the radiance arriving along `ray`, following
/// scattered continuations for at most `depth` bounces. A depth of zero
/// yields black regardless of the scene.
pub fn ray_color(
    root: usize,
    objects: &Vec<Object>,
    materials: &Vec<Material>,
    nodes: &Vec<BvhNode>,
    ray: Ray,
    depth: usize,
) -> (c: Vec3)
    requires
        tree_wf(nodes@, objects@),
        scene_wf(objects@),
        ray_wf(ray),
        root < nodes@.len(),
        depth <= 0x1000_0000,
        forall|i: int| 0 <= i < materials@.len() ==> mat_wf(#[trigger] materials@[i]),
        mats_cover(objects@, materials@.len() as int),
    ensures
        depth == 0 ==> c == (Vec3 { x: 0, y: 0, z: 0 }),
        depth > 0 && crate::objects::bvh::subtree_miss(
            nodes@,
            objects@,
            root as int,
            ray,
            T_MIN as int,
            T_FAR as int,
        ) ==> c == (Vec3 { x: BG_RADIANCE, y: BG_RADIANCE, z: BG_RADIANCE }),
        depth > 0 && !crate::objects::bvh::subtree_miss(
            nodes@,
            objects@,
            root as int,
            ray,
            T_MIN as int,
            T_FAR as int,
        ) ==> hit_radiance_ok(nodes@, objects@, materials@, root as int, ray, c),
        radiance_ok(c, depth as int),
    decreases depth,
{
    if depth == 0 {
        return Vec3 { x: 0, y: 0, z: 0 };
    }

    let res = BvhNode::intersect(root, &ray, T_MIN, T_FAR, objects, nodes);

    match res {
        None => Vec3 { x: BG_RADIANCE, y: BG_RADIANCE, z: BG_RADIANCE },
        Some(result) => {
            let ghost j0 = choose|j: int|
                #[trigger] in_subtree(nodes@, root as int, j) && crate::objects::obj_first_t(
                    objects@[j],
                    ray,
                    T_MIN as int,
                    T_FAR as int,
                ) == Some(result.t as int) && result == crate::objects::obj_hit_record(
                    objects@[j],
                    ray,
                    T_MIN as int,
                    T_FAR as int,
                );
            proof {
                crate::objects::bvh::lemma_subtree_objects(nodes@, objects@, root as int, j0);
                crate::objects::lemma_hit_record_ok(
                    objects@[j0],
                    ray,
                    T_MIN as int,
                    T_FAR as int,
                );
            }
            let material = &materials[result.material];
            let emitted = material.emit();
            let out = match material.scatter(&ray, result) {
                Some(scattered) => {
                    if ray_ok(&scattered.ray) {
                        let color = ray_color(
                            root,
                            objects,
                            materials,
                            nodes,
                            scattered.ray,
                            depth - 1,
                        );
                        let kept = hadamard_fx(scattered.attenuation, color);
                        emitted.plus(kept)
                    } else {
                        emitted
                    }
                },
                None => emitted,
            };
            proof {
                assert(in_subtree(nodes@, root as int, j0) && 0 <= j0 < objects@.len()
                    && crate::objects::obj_first_t(objects@[j0], ray, T_MIN as int, T_FAR as int)
                    is Some && crate::objects::bvh::subtree_hit_min(
                    nodes@,
                    objects@,
                    root as int,
                    ray,
                    T_MIN as int,
                    T_FAR as int,
                    crate::objects::obj_first_t(objects@[j0], ray, T_MIN as int, T_FAR as int)->0,
                ) && out.x >= crate::materials::emit_spec(
                    materials@[obj_material(objects@[j0])],
                ).x && out.y >= crate::materials::emit_spec(
                    materials@[obj_material(objects@[j0])],
                ).y && out.z >= crate::materials::emit_spec(
                    materials@[obj_material(objects@[j0])],
                ).z && (materials@[obj_material(objects@[j0])] is DiffuseLight ==> out
                    == crate::materials::emit_spec(materials@[obj_material(objects@[j0])])));
                assert(hit_radiance_ok(nodes@, objects@, materials@, root as int, ray, out));
            }
            out
        },
    }
}

} // verus!
