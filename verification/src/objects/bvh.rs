//! The bounding-volume hierarchy: a binary tree over the primitive list,
//! stored as an index-addressed arena (children always precede their
//! parent), built by binned surface-area-heuristic partitioning, and
//! traversed nearest-first.
//!
//! Traversal prunes a subtree when its box fails the slab test over the
//! ray's whole forward range — the same gate every primitive applies to
//! its own box — so pruning provably never loses a reported hit, and the
//! traversal returns a hit of least parameter among exactly the hits a
//! brute-force scan of the same list would consider.

use vstd::prelude::*;

verus! {

use crate::utils::ray::{Ray, ray_wf};
use crate::behaviors::intersect::IntersectResult;
use crate::objects::aabb::{
    Aabb, box_wf, box_contains, slab_pass, merge_spec, lemma_slab_widen,
};
use crate::objects::{
    Object, obj_wf, obj_is_mesh, obj_bbox_spec, obj_first_t, obj_hit_record, lemma_obj_restrict,
    lemma_obj_box_gate,
};
use crate::objects::world::scene_wf;
use vstd::math::abs;

#[derive(Clone, Copy, Debug, PartialEq, Eq, Structural)]
pub struct BvhNode {
    pub object: Option<usize>,
    pub left: Option<usize>,
    pub right: Option<usize>,
    pub bbox: Aabb,
}

/// Shape of one arena slot: an interior node has two children at smaller
/// indices whose boxes are real and lie within its own; a leaf either
/// holds a primitive index and a box around that primitive's box, or is
/// the empty tree.
pub open spec fn node_wf(nodes: Seq<BvhNode>, objects: Seq<Object>, k: int) -> bool {
    let nd = nodes[k];
    if nd.left is Some || nd.right is Some {
        &&& nd.left is Some
        &&& nd.right is Some
        &&& nd.object is None
        &&& nd.left->0 < k
        &&& nd.right->0 < k
        &&& box_wf(nodes[nd.left->0 as int].bbox)
        &&& box_wf(nodes[nd.right->0 as int].bbox)
        &&& box_contains(nd.bbox, nodes[nd.left->0 as int].bbox)
        &&& box_contains(nd.bbox, nodes[nd.right->0 as int].bbox)
    } else {
        match nd.object {
            Some(oi) => {
                &&& oi < objects.len()
                &&& box_contains(nd.bbox, obj_bbox_spec(objects[oi as int]))
            },
            None => true,
        }
    }
}

pub open spec fn tree_wf(nodes: Seq<BvhNode>, objects: Seq<Object>) -> bool {
    forall|k: int| 0 <= k < nodes.len() ==> node_wf(nodes, objects, k)
}

/// The primitive indices a subtree holds.
pub open spec fn in_subtree(nodes: Seq<BvhNode>, k: int, j: int) -> bool
    decreases k,
        when 0 <= k
{
    if !(0 <= k < nodes.len()) {
        false
    } else {
        let nd = nodes[k];
        if nd.left is Some && nd.right is Some && nd.left->0 < k && nd.right->0 < k {
            in_subtree(nodes, nd.left->0 as int, j) || in_subtree(nodes, nd.right->0 as int, j)
        } else {
            nd.object is Some && nd.object->0 == j
        }
    }
}

/// How many of the subtree's leaves reference primitive `j`.
pub open spec fn leaf_refs(nodes: Seq<BvhNode>, k: int, j: int) -> nat
    decreases k,
        when 0 <= k
{
    if !(0 <= k < nodes.len()) {
        0
    } else {
        let nd = nodes[k];
        if nd.left is Some && nd.right is Some && nd.left->0 < k && nd.right->0 < k {
            leaf_refs(nodes, nd.left->0 as int, j) + leaf_refs(nodes, nd.right->0 as int, j)
        } else {
            if nd.object is Some && nd.object->0 == j {
                1
            } else {
                0
            }
        }
    }
}

/// A primitive sits in a subtree exactly when at least one of the
/// subtree's leaves references it.
proof fn lemma_leaf_refs_in_subtree(nodes: Seq<BvhNode>, k: int, j: int)
    requires
        0 <= k,
    ensures
        in_subtree(nodes, k, j) <==> leaf_refs(nodes, k, j) > 0,
    decreases k,
{
    if 0 <= k < nodes.len() {
        let nd = nodes[k];
        if nd.left is Some && nd.right is Some && nd.left->0 < k && nd.right->0 < k {
            lemma_leaf_refs_in_subtree(nodes, nd.left->0 as int, j);
            lemma_leaf_refs_in_subtree(nodes, nd.right->0 as int, j);
        }
    }
}

/// Like membership, the count depends only on the arena prefix up to the
/// subtree's root.
proof fn lemma_leaf_refs_prefix(n1: Seq<BvhNode>, n2: Seq<BvhNode>, k: int, j: int)
    requires
        n1.len() <= n2.len(),
        n2.take(n1.len() as int) == n1,
        0 <= k < n1.len(),
    ensures
        leaf_refs(n2, k, j) == leaf_refs(n1, k, j),
    decreases k,
{
    assert(n1[k] == n2.take(n1.len() as int)[k]);
    let nd = n1[k];
    if nd.left is Some && nd.right is Some && nd.left->0 < k && nd.right->0 < k {
        lemma_leaf_refs_prefix(n1, n2, nd.left->0 as int, j);
        lemma_leaf_refs_prefix(n1, n2, nd.right->0 as int, j);
    }
}

/// No primitive of the subtree reports a parameter over the range.
pub open spec fn subtree_miss(
    nodes: Seq<BvhNode>,
    objects: Seq<Object>,
    k: int,
    r: Ray,
    t_min: int,
    t_max: int,
) -> bool {
    forall|j: int|
        #[trigger] in_subtree(nodes, k, j) ==> obj_first_t(objects[j], r, t_min, t_max) is None
}

/// `res` is the record some primitive of the subtree reports.
pub open spec fn subtree_hit_valid(
    nodes: Seq<BvhNode>,
    objects: Seq<Object>,
    k: int,
    r: Ray,
    t_min: int,
    t_max: int,
    res: IntersectResult,
) -> bool {
    exists|j: int|
        #[trigger] in_subtree(nodes, k, j) && obj_first_t(objects[j], r, t_min, t_max) == Some(
            res.t as int,
        ) && res == obj_hit_record(objects[j], r, t_min, t_max)
}

/// `t` is at most every parameter any primitive of the subtree reports.
pub open spec fn subtree_hit_min(
    nodes: Seq<BvhNode>,
    objects: Seq<Object>,
    k: int,
    r: Ray,
    t_min: int,
    t_max: int,
    t: int,
) -> bool {
    forall|j: int|
        #[trigger] in_subtree(nodes, k, j) ==> match obj_first_t(objects[j], r, t_min, t_max) {
            Some(tj) => t <= tj,
            None => true,
        }
}

/// Primitives only ever sit in subtrees of valid indices, so a subtree's
/// box bounds the box of every primitive below it.
proof fn lemma_subtree_box(nodes: Seq<BvhNode>, objects: Seq<Object>, k: int, j: int)
    requires
        tree_wf(nodes, objects),
        0 <= k < nodes.len(),
        in_subtree(nodes, k, j),
    ensures
        0 <= j < objects.len(),
        box_contains(nodes[k].bbox, obj_bbox_spec(objects[j])),
    decreases k,
{
    let nd = nodes[k];
    assert(node_wf(nodes, objects, k));
    if nd.left is Some && nd.right is Some && nd.left->0 < k && nd.right->0 < k {
        if in_subtree(nodes, nd.left->0 as int, j) {
            lemma_subtree_box(nodes, objects, nd.left->0 as int, j);
        } else {
            lemma_subtree_box(nodes, objects, nd.right->0 as int, j);
        }
    }
}

/// A subtree whose box fails the forward-range slab test holds no
/// primitive that reports a parameter, over any query range.
proof fn lemma_prune(
    nodes: Seq<BvhNode>,
    objects: Seq<Object>,
    k: int,
    r: Ray,
    t_min: int,
    t_max: int,
)
    requires
        tree_wf(nodes, objects),
        scene_wf(objects),
        ray_wf(r),
        0 <= k < nodes.len(),
        box_wf(nodes[k].bbox),
        !slab_pass(nodes[k].bbox, r, 0, i64::MAX as int),
    ensures
        subtree_miss(nodes, objects, k, r, t_min, t_max),
{
    assert forall|j: int| #[trigger] in_subtree(nodes, k, j) implies obj_first_t(
        objects[j],
        r,
        t_min,
        t_max,
    ) is None by {
        lemma_subtree_box(nodes, objects, k, j);
        lemma_obj_box_wf(objects[j]);
        if slab_pass(obj_bbox_spec(objects[j]), r, 0, i64::MAX as int) {
            lemma_slab_widen(
                nodes[k].bbox,
                obj_bbox_spec(objects[j]),
                r,
                0,
                i64::MAX as int,
            );
        }
        lemma_obj_box_gate(objects[j], r, t_min, t_max);
    }
}

/// The box of a well-formed, divided primitive lies on the bounded grid
/// with its corners in order.
pub proof fn lemma_obj_box_wf(o: Object)
    requires
        obj_wf(o),
        !obj_is_mesh(o),
    ensures
        box_wf(obj_bbox_spec(o)),
        obj_bbox_spec(o).lower.x <= obj_bbox_spec(o).upper.x,
        obj_bbox_spec(o).lower.y <= obj_bbox_spec(o).upper.y,
        obj_bbox_spec(o).lower.z <= obj_bbox_spec(o).upper.z,
{
}

impl BvhNode {
    /// Nearest reported hit within the subtree rooted at `node`: the box
    /// tests only prune, and the nearer child shrinks the range the
    /// farther child is asked about.
    pub fn intersect(
        node: usize,
        ray: &Ray,
        t_min: i64,
        t_max: i64,
        objects: &Vec<Object>,
        nodes: &Vec<BvhNode>,
    ) -> (res: Option<IntersectResult>)
        requires
            tree_wf(nodes@, objects@),
            scene_wf(objects@),
            ray_wf(*ray),
            node < nodes@.len(),
            0 <= t_min,
            t_max <= 0x100_0000_0000,
        ensures
            (res is None) == subtree_miss(
                nodes@,
                objects@,
                node as int,
                *ray,
                t_min as int,
                t_max as int,
            ),
            res is Some ==> subtree_hit_valid(
                nodes@,
                objects@,
                node as int,
                *ray,
                t_min as int,
                t_max as int,
                res->0,
            ),
            res is Some ==> subtree_hit_min(
                nodes@,
                objects@,
                node as int,
                *ray,
                t_min as int,
                t_max as int,
                res->0.t as int,
            ),
            res is Some ==> t_min <= res->0.t <= t_max,
        decreases node,
    {
        let nd = nodes[node];
        proof {
            assert(node_wf(nodes@, objects@, node as int));
        }

        let l: usize;
        let r: usize;
        if let (Some(left_i), Some(right_i)) = (nd.left, nd.right) {
            l = left_i;
            r = right_i;
        } else {
            match nd.object {
                Some(object) => {
                    let res = objects[object].intersect(ray, t_min, t_max);
                    proof {
                        assert(in_subtree(nodes@, node as int, object as int));
                        assert(forall|j: int|
                            in_subtree(nodes@, node as int, j) <==> j == object as int);
                    }
                    return res;
                },
                None => {
                    return None;
                },
            }
        }

        let left_bbox_res = nodes[l].bbox.intersect(ray, 0, i64::MAX);
        let right_bbox_res = nodes[r].bbox.intersect(ray, 0, i64::MAX);

        proof {
            assert(forall|j: int|
                in_subtree(nodes@, node as int, j) <==> in_subtree(nodes@, l as int, j)
                    || in_subtree(nodes@, r as int, j));
        }

        match (left_bbox_res, right_bbox_res) {
            (None, None) => {
                proof {
                    lemma_prune(nodes@, objects@, l as int, *ray, t_min as int, t_max as int);
                    lemma_prune(nodes@, objects@, r as int, *ray, t_min as int, t_max as int);
                }
                None
            },
            (Some(_), None) => {
                proof {
                    lemma_prune(nodes@, objects@, r as int, *ray, t_min as int, t_max as int);
                }
                let res = Self::intersect(l, ray, t_min, t_max, objects, nodes);
                proof {
                    lemma_combine_one(
                        nodes@, objects@, node as int, l as int, r as int,
                        *ray, t_min as int, t_max as int, res,
                    );
                }
                res
            },
            (None, Some(_)) => {
                proof {
                    lemma_prune(nodes@, objects@, l as int, *ray, t_min as int, t_max as int);
                }
                let res = Self::intersect(r, ray, t_min, t_max, objects, nodes);
                proof {
                    lemma_combine_one(
                        nodes@, objects@, node as int, r as int, l as int,
                        *ray, t_min as int, t_max as int, res,
                    );
                }
                res
            },
            (Some(left_t), Some(right_t)) => {
                let near: usize;
                let far: usize;
                if left_t > right_t {
                    near = r;
                    far = l;
                } else {
                    near = l;
                    far = r;
                }
                proof {
                    assert(forall|j: int|
                        in_subtree(nodes@, node as int, j) <==> in_subtree(nodes@, near as int, j)
                            || in_subtree(nodes@, far as int, j));
                }
                match Self::intersect(near, ray, t_min, t_max, objects, nodes) {
                    Some(near_res) => {
                        let far_res = Self::intersect(
                            far,
                            ray,
                            t_min,
                            near_res.t,
                            objects,
                            nodes,
                        );
                        proof {
                            lemma_lift_far(
                                nodes@,
                                objects@,
                                far as int,
                                *ray,
                                t_min as int,
                                t_max as int,
                                near_res.t as int,
                                far_res,
                            );
                        }
                        let res = match far_res {
                            Some(fr) => Some(fr),
                            None => Some(near_res),
                        };
                        proof {
                            lemma_combine_near_far(
                                nodes@, objects@, node as int, near as int, far as int,
                                *ray, t_min as int, t_max as int,
                                near_res, far_res,
                            );
                        }
                        res
                    },
                    None => {
                        let res = Self::intersect(far, ray, t_min, t_max, objects, nodes);
                        proof {
                            lemma_combine_one(
                                nodes@, objects@, node as int, far as int, near as int,
                                *ray, t_min as int, t_max as int, res,
                            );
                        }
                        res
                    },
                }
            },
        }
    }
}

/// Combine a child's answer with a sibling known to miss: the child's
/// answer stands for the parent.
proof fn lemma_combine_one(
    nodes: Seq<BvhNode>,
    objects: Seq<Object>,
    parent: int,
    a: int,
    b: int,
    r: Ray,
    t_min: int,
    t_max: int,
    res: Option<IntersectResult>,
)
    requires
        forall|j: int|
            #[trigger] in_subtree(nodes, parent, j) <==> in_subtree(nodes, a, j) || in_subtree(
                nodes,
                b,
                j,
            ),
        subtree_miss(nodes, objects, b, r, t_min, t_max),
        res is None ==> subtree_miss(nodes, objects, a, r, t_min, t_max),
        res matches Some(rr) ==> subtree_hit_valid(nodes, objects, a, r, t_min, t_max, rr)
            && subtree_hit_min(nodes, objects, a, r, t_min, t_max, rr.t as int),
    ensures
        (res is None) == subtree_miss(nodes, objects, parent, r, t_min, t_max),
        res matches Some(rr) ==> subtree_hit_valid(nodes, objects, parent, r, t_min, t_max, rr)
            && subtree_hit_min(nodes, objects, parent, r, t_min, t_max, rr.t as int),
{
    match res {
        None => {
            assert forall|j: int| #[trigger] in_subtree(nodes, parent, j) implies obj_first_t(
                objects[j],
                r,
                t_min,
                t_max,
            ) is None by {
                assert(in_subtree(nodes, a, j) || in_subtree(nodes, b, j));
            }
        },
        Some(rr) => {
            let j0 = choose|j: int|
                #[trigger] in_subtree(nodes, a, j) && obj_first_t(objects[j], r, t_min, t_max)
                    == Some(rr.t as int) && rr == obj_hit_record(objects[j], r, t_min, t_max);
            assert(in_subtree(nodes, parent, j0));
            assert(subtree_hit_valid(nodes, objects, parent, r, t_min, t_max, rr));
            assert(!subtree_miss(nodes, objects, parent, r, t_min, t_max));
            assert forall|j: int| #[trigger] in_subtree(nodes, parent, j) implies match obj_first_t(
                objects[j],
                r,
                t_min,
                t_max,
            ) {
                Some(tj) => rr.t <= tj,
                None => true,
            } by {
                assert(in_subtree(nodes, a, j) || in_subtree(nodes, b, j));
            }
        },
    }
}

/// Combine the nearer child's hit with the farther child's lifted answer.
proof fn lemma_combine_near_far(
    nodes: Seq<BvhNode>,
    objects: Seq<Object>,
    parent: int,
    near: int,
    far: int,
    r: Ray,
    t_min: int,
    t_max: int,
    near_res: IntersectResult,
    far_res: Option<IntersectResult>,
)
    requires
        forall|j: int|
            #[trigger] in_subtree(nodes, parent, j) <==> in_subtree(nodes, near, j) || in_subtree(
                nodes,
                far,
                j,
            ),
        subtree_hit_valid(nodes, objects, near, r, t_min, t_max, near_res),
        subtree_hit_min(nodes, objects, near, r, t_min, t_max, near_res.t as int),
        far_res is None ==> forall|j: int|
            #[trigger] in_subtree(nodes, far, j) ==> match obj_first_t(
                objects[j],
                r,
                t_min,
                t_max,
            ) {
                Some(tj) => tj > near_res.t,
                None => true,
            },
        far_res matches Some(fr) ==> subtree_hit_valid(nodes, objects, far, r, t_min, t_max, fr)
            && subtree_hit_min(nodes, objects, far, r, t_min, t_max, fr.t as int)
            && fr.t <= near_res.t,
    ensures
        far_res is None ==> subtree_hit_valid(nodes, objects, parent, r, t_min, t_max, near_res)
            && subtree_hit_min(nodes, objects, parent, r, t_min, t_max, near_res.t as int)
            && !subtree_miss(nodes, objects, parent, r, t_min, t_max),
        far_res matches Some(fr) ==> subtree_hit_valid(nodes, objects, parent, r, t_min, t_max, fr)
            && subtree_hit_min(nodes, objects, parent, r, t_min, t_max, fr.t as int)
            && !subtree_miss(nodes, objects, parent, r, t_min, t_max),
{
    let jn = choose|j: int|
        #[trigger] in_subtree(nodes, near, j) && obj_first_t(objects[j], r, t_min, t_max) == Some(
            near_res.t as int,
        ) && near_res == obj_hit_record(objects[j], r, t_min, t_max);
    assert(in_subtree(nodes, parent, jn));
    match far_res {
        None => {
            assert(subtree_hit_valid(nodes, objects, parent, r, t_min, t_max, near_res));
            assert forall|j: int| #[trigger] in_subtree(nodes, parent, j) implies match obj_first_t(
                objects[j],
                r,
                t_min,
                t_max,
            ) {
                Some(tj) => near_res.t <= tj,
                None => true,
            } by {
                assert(in_subtree(nodes, near, j) || in_subtree(nodes, far, j));
            }
        },
        Some(fr) => {
            let jf = choose|j: int|
                #[trigger] in_subtree(nodes, far, j) && obj_first_t(objects[j], r, t_min, t_max)
                    == Some(fr.t as int) && fr == obj_hit_record(objects[j], r, t_min, t_max);
            assert(in_subtree(nodes, parent, jf));
            assert(subtree_hit_valid(nodes, objects, parent, r, t_min, t_max, fr));
            assert forall|j: int| #[trigger] in_subtree(nodes, parent, j) implies match obj_first_t(
                objects[j],
                r,
                t_min,
                t_max,
            ) {
                Some(tj) => fr.t <= tj,
                None => true,
            } by {
                assert(in_subtree(nodes, near, j) || in_subtree(nodes, far, j));
            }
        },
    }
}

/// Lift the farther subtree's answer over the shrunken range back to the
/// full query range: a hit found below the cut is a full-range hit, and a
/// miss below the cut means every full-range hit lies beyond the cut.
proof fn lemma_lift_far(
    nodes: Seq<BvhNode>,
    objects: Seq<Object>,
    k: int,
    r: Ray,
    t_min: int,
    t_max: int,
    t_cut: int,
    far_res: Option<IntersectResult>,
)
    requires
        t_min <= t_cut <= t_max,
        far_res is None ==> subtree_miss(nodes, objects, k, r, t_min, t_cut),
        far_res matches Some(fr) ==> subtree_hit_valid(nodes, objects, k, r, t_min, t_cut, fr)
            && subtree_hit_min(nodes, objects, k, r, t_min, t_cut, fr.t as int),
    ensures
        far_res is None ==> forall|j: int|
            #[trigger] in_subtree(nodes, k, j) ==> match obj_first_t(objects[j], r, t_min, t_max) {
                Some(tj) => tj > t_cut,
                None => true,
            },
        far_res matches Some(fr) ==> subtree_hit_valid(nodes, objects, k, r, t_min, t_max, fr)
            && subtree_hit_min(nodes, objects, k, r, t_min, t_max, fr.t as int),
{
    match far_res {
        None => {
            assert forall|j: int| #[trigger] in_subtree(nodes, k, j) implies match obj_first_t(
                objects[j],
                r,
                t_min,
                t_max,
            ) {
                Some(tj) => tj > t_cut,
                None => true,
            } by {
                lemma_obj_restrict(objects[j], r, t_min, t_max, t_cut);
            }
        },
        Some(fr) => {
            let j0 = choose|j: int|
                #[trigger] in_subtree(nodes, k, j) && obj_first_t(objects[j], r, t_min, t_cut)
                    == Some(fr.t as int) && fr == obj_hit_record(objects[j], r, t_min, t_cut);
            lemma_obj_restrict(objects[j0], r, t_min, t_max, t_cut);
            assert(in_subtree(nodes, k, j0) && obj_first_t(objects[j0], r, t_min, t_max) == Some(
                fr.t as int,
            ) && fr == obj_hit_record(objects[j0], r, t_min, t_max));
            assert forall|j: int| #[trigger] in_subtree(nodes, k, j) implies match obj_first_t(
                objects[j],
                r,
                t_min,
                t_max,
            ) {
                Some(tj) => fr.t <= tj,
                None => true,
            } by {
                lemma_obj_restrict(objects[j], r, t_min, t_max, t_cut);
            }
        },
    }
}


/// The empty box, the identity element of `merge`.
pub open spec fn null_box() -> Aabb {
    Aabb {
        lower: crate::utils::vector::Vec3 { x: i64::MAX, y: i64::MAX, z: i64::MAX },
        upper: crate::utils::vector::Vec3 { x: i64::MIN, y: i64::MIN, z: i64::MIN },
    }
}

/// The union of the primitives' boxes, folded left to right.
pub open spec fn boxes_fold(s: Seq<Object>) -> Aabb
    decreases s.len(),
{
    if s.len() == 0 {
        null_box()
    } else {
        merge_spec(boxes_fold(s.drop_last()), obj_bbox_spec(s.last()))
    }
}

/// A box around every primitive's box is around their union.
proof fn lemma_fold_contained(full: Aabb, s: Seq<Object>)
    requires
        forall|i: int| 0 <= i < s.len() ==> box_contains(full, obj_bbox_spec(#[trigger] s[i])),
    ensures
        box_contains(full, boxes_fold(s)),
    decreases s.len(),
{
    if s.len() > 0 {
        lemma_fold_contained(full, s.drop_last());
        assert(box_contains(full, obj_bbox_spec(s.last())));
    }
}

/// Merging boxes on the grid stays on the grid, and merging the empty
/// box with a grid box lands on the grid.
proof fn lemma_merge_wf(a: Aabb, b: Aabb)
    requires
        box_wf(b),
    ensures
        box_wf(a) ==> box_wf(merge_spec(a, b)),
        a == null_box() ==> merge_spec(a, b) == b,
{
    crate::objects::aabb::lemma_merge_null_identity(b);
    if a == null_box() {
        assert(merge_spec(null_box(), b) == b);
    }
}

/// The union of one primitive's boxes is that primitive's box.
proof fn lemma_boxes_fold_single(s: Seq<Object>)
    requires
        s.len() == 1,
    ensures
        boxes_fold(s) == obj_bbox_spec(s[0]),
{
    assert(s.drop_last() =~= Seq::<Object>::empty());
    assert(s.last() == s[0]);
    assert(boxes_fold(s.drop_last()) == null_box());
    assert(boxes_fold(s) == merge_spec(null_box(), obj_bbox_spec(s[0])));
    assert(null_box() == (Aabb {
        lower: crate::utils::vector::Vec3 { x: i64::MAX, y: i64::MAX, z: i64::MAX },
        upper: crate::utils::vector::Vec3 { x: i64::MIN, y: i64::MIN, z: i64::MIN },
    }));
    crate::objects::aabb::lemma_merge_null_identity(obj_bbox_spec(s[0]));
}

/// The union box of at least one well-formed primitive lies on the grid.
proof fn lemma_boxes_fold_wf(s: Seq<Object>)
    requires
        s.len() > 0,
        forall|i: int| 0 <= i < s.len() ==> obj_wf(#[trigger] s[i]) && !obj_is_mesh(s[i]),
    ensures
        box_wf(boxes_fold(s)),
    decreases s.len(),
{
    lemma_obj_box_wf(s.last());
    if s.len() == 1 {
        lemma_boxes_fold_single(s);
        lemma_obj_box_wf(s[0]);
    } else {
        assert(s.drop_last().len() > 0);
        lemma_boxes_fold_wf(s.drop_last());
        lemma_merge_wf(boxes_fold(s.drop_last()), obj_bbox_spec(s.last()));
    }
}

/// Membership in a subtree depends only on the arena prefix up to its
/// root, so appending nodes never changes it.
proof fn lemma_in_subtree_prefix(n1: Seq<BvhNode>, n2: Seq<BvhNode>, k: int, j: int)
    requires
        n1.len() <= n2.len(),
        n2.take(n1.len() as int) == n1,
        0 <= k < n1.len(),
    ensures
        in_subtree(n2, k, j) == in_subtree(n1, k, j),
    decreases k,
{
    assert(n1[k] == n2.take(n1.len() as int)[k]);
    let nd = n1[k];
    if nd.left is Some && nd.right is Some && nd.left->0 < k && nd.right->0 < k {
        lemma_in_subtree_prefix(n1, n2, nd.left->0 as int, j);
        lemma_in_subtree_prefix(n1, n2, nd.right->0 as int, j);
    }
}

/// Node well-formedness is likewise stable under appending nodes or
/// primitives.
proof fn lemma_tree_wf_prefix(n1: Seq<BvhNode>, o1: Seq<Object>, n2: Seq<BvhNode>, o2: Seq<Object>)
    requires
        tree_wf(n1, o1),
        n1.len() <= n2.len(),
        n2.take(n1.len() as int) == n1,
        o1.len() <= o2.len(),
        o2.take(o1.len() as int) == o1,
    ensures
        forall|k: int| 0 <= k < n1.len() ==> node_wf(n2, o2, k),
{
    assert forall|k: int| 0 <= k < n1.len() implies node_wf(n2, o2, k) by {
        assert(node_wf(n1, o1, k));
        assert(n1[k] == n2.take(n1.len() as int)[k]);
        let nd = n1[k];
        if nd.left is Some || nd.right is Some {
            assert(n1[nd.left->0 as int] == n2.take(n1.len() as int)[nd.left->0 as int]);
            assert(n1[nd.right->0 as int] == n2.take(n1.len() as int)[nd.right->0 as int]);
        } else {
            match nd.object {
                Some(oi) => {
                    assert(o1[oi as int] == o2.take(o1.len() as int)[oi as int]);
                },
                None => {},
            }
        }
    }
}

/// The centroid of the primitive's box, truncating toward the lower corner.
pub open spec fn obj_centroid(o: Object) -> crate::utils::vector::Vec3 {
    let b = obj_bbox_spec(o);
    crate::utils::vector::Vec3 {
        x: crate::num::tdiv(b.lower.x + b.upper.x, 2) as i64,
        y: crate::num::tdiv(b.lower.y + b.upper.y, 2) as i64,
        z: crate::num::tdiv(b.lower.z + b.upper.z, 2) as i64,
    }
}

/// The primitive's centroid lies inside `cb` on every axis.
pub open spec fn centroid_in(cb: Aabb, o: Object) -> bool {
    let c = obj_centroid(o);
    &&& cb.lower.x <= c.x <= cb.upper.x
    &&& cb.lower.y <= c.y <= cb.upper.y
    &&& cb.lower.z <= c.z <= cb.upper.z
}

impl BvhNode {
    /// Build the subtree for `primitives`, appending the primitives to
    /// `objects` and the new nodes to `nodes`, and return the root's slot.
    ///
    /// Partitions of three or more primitives follow the binned
    /// surface-area heuristic: the split axis is the centroid bounds'
    /// largest extent, centroids fall into twelve equal buckets along it,
    /// and the boundary whose two sides have the least count-weighted
    /// area sum wins. A split that leaves one side empty (all centroids
    /// in one bucket) falls back to halving the list, so construction
    /// always terminates.
    #[verifier::rlimit(100)]
    pub fn construct(
        mut primitives: Vec<Object>,
        objects: &mut Vec<Object>,
        nodes: &mut Vec<BvhNode>,
    ) -> (root: usize)
        requires
            forall|i: int|
                0 <= i < primitives@.len() ==> obj_wf(#[trigger] primitives@[i]) && !obj_is_mesh(
                    primitives@[i],
                ),
            scene_wf(old(objects)@),
            tree_wf(old(nodes)@, old(objects)@),
            primitives@.len() <= 0x1000_0000,
            old(objects)@.len() + primitives@.len() <= usize::MAX,
        ensures
            final(objects)@.len() == old(objects)@.len() + primitives@.len(),
            final(objects)@.take(old(objects)@.len() as int) == old(objects)@,
            final(nodes)@.len() == old(nodes)@.len() + (if primitives@.len() == 0 {
                1int
            } else {
                2 * primitives@.len() - 1
            }),
            final(nodes)@.len() > old(nodes)@.len(),
            final(nodes)@.take(old(nodes)@.len() as int) == old(nodes)@,
            root == final(nodes)@.len() - 1,
            scene_wf(final(objects)@),
            tree_wf(final(nodes)@, final(objects)@),
            final(objects)@.skip(old(objects)@.len() as int).to_multiset()
                == primitives@.to_multiset(),
            final(nodes)@[root as int].bbox == boxes_fold(primitives@),
            primitives@.len() > 0 ==> box_wf(final(nodes)@[root as int].bbox),
            forall|j: int|
                #[trigger] in_subtree(final(nodes)@, root as int, j) <==> old(objects)@.len() <= j
                    < final(objects)@.len(),
            forall|j: int|
                old(objects)@.len() <= j < final(objects)@.len() ==> #[trigger] leaf_refs(
                    final(nodes)@,
                    root as int,
                    j,
                ) == 1,
        decreases primitives@.len(),
    {
        let ghost prims0 = primitives@;
        let ghost o0 = objects@;
        let ghost n0 = nodes@;
        let len = primitives.len();

        if len == 0 {
            nodes.push(
                BvhNode { object: None, left: None, right: None, bbox: Aabb::null() },
            );
            proof {
                assert(nodes@.take(n0.len() as int) =~= n0);
                assert(objects@.take(o0.len() as int) =~= o0);
                lemma_tree_wf_prefix(n0, o0, nodes@, objects@);
                assert(forall|j: int| !in_subtree(nodes@, n0.len() as int, j));
                assert(prims0 =~= Seq::<Object>::empty());
                assert(objects@.skip(o0.len() as int) =~= Seq::<Object>::empty());
            }
            return nodes.len() - 1;
        }

        if len == 1 {
            let object = primitives.pop().unwrap();
            proof {
                crate::objects::bvh::lemma_obj_box_wf(object);
            }
            let bbox = object.bbox();
            objects.push(object);
            nodes.push(
                BvhNode { bbox, left: None, right: None, object: Some(objects.len() - 1) },
            );
            proof {
                assert(objects@.take(o0.len() as int) =~= o0);
                assert(nodes@.take(n0.len() as int) =~= n0);
                assert(prims0.last() == prims0[0]);
                lemma_boxes_fold_single(prims0);
                assert(objects@.skip(o0.len() as int) =~= prims0);
                lemma_tree_wf_prefix(n0, o0, nodes@, objects@);
                assert(node_wf(nodes@, objects@, n0.len() as int));
                assert(forall|j: int|
                    in_subtree(nodes@, n0.len() as int, j) <==> j == o0.len() as int);
                assert(forall|j: int|
                    leaf_refs(nodes@, n0.len() as int, j) == (if j == o0.len() as int {
                        1nat
                    } else {
                        0nat
                    }));
            }
            return nodes.len() - 1;
        }

        if len == 2 {
            let right_obj = primitives.pop().unwrap();
            let left_obj = primitives.pop().unwrap();
            proof {
                crate::objects::bvh::lemma_obj_box_wf(left_obj);
                crate::objects::bvh::lemma_obj_box_wf(right_obj);
            }
            let bbox = left_obj.bbox().merge(right_obj.bbox());
            let ghost bl = obj_bbox_spec(prims0[0]);
            let ghost br = obj_bbox_spec(prims0[1]);
            let mut left_vec: Vec<Object> = Vec::new();
            left_vec.push(left_obj);
            let mut right_vec: Vec<Object> = Vec::new();
            right_vec.push(right_obj);
            let ghost lv = left_vec@;
            let ghost rv = right_vec@;
            let left_node = Self::construct(left_vec, objects, nodes);
            let ghost o1 = objects@;
            let ghost n1 = nodes@;
            let right_node = Self::construct(right_vec, objects, nodes);
            let ghost o2 = objects@;
            let ghost n2 = nodes@;
            nodes.push(
                BvhNode {
                    bbox,
                    left: Some(left_node),
                    right: Some(right_node),
                    object: None,
                },
            );
            let ghost n3 = nodes@;
            let root = nodes.len() - 1;
            proof {
                lemma_case2_glue(
                    prims0, o0, o1, o2, n0, n1, n2, n3, lv, rv,
                    left_node, right_node, bbox,
                );
            }
            return root;
        }

        // three or more: surface-area-heuristic binned split
        let bounds = compute_bounds(&primitives);
        let full_bounds = bounds.0;
        let centroid_bounds = bounds.1;
        let parts = partition_sah(primitives, centroid_bounds, Ghost(full_bounds));
        let left_list = parts.0;
        let right_list = parts.1;
        let ghost lv = left_list@;
        let ghost rv = right_list@;
        proof {
            lemma_fold_contained(full_bounds, lv);
            lemma_fold_contained(full_bounds, rv);
        }
        let left_root = Self::construct(left_list, objects, nodes);
        let ghost o1 = objects@;
        let ghost n1 = nodes@;
        let right_root = Self::construct(right_list, objects, nodes);
        let ghost o2 = objects@;
        let ghost n2 = nodes@;
        nodes.push(
            BvhNode {
                bbox: full_bounds,
                left: Some(left_root),
                right: Some(right_root),
                object: None,
            },
        );
        let ghost n3 = nodes@;
        let root = nodes.len() - 1;
        proof {
            lemma_interior_glue(
                o0, o1, o2, n0, n1, n2, n3, lv, rv,
                left_root, right_root, full_bounds,
            );
            assert(full_bounds == boxes_fold(prims0));
        }
        root
    }
}

/// Magnitude bound of the area proxy of a grid box.
proof fn lemma_area_bound(b: Aabb)
    ensures
        box_wf(b) ==> abs(crate::objects::aabb::area_spec(b)) <= 0x2_0000_0000_0000_0000,
{
    if box_wf(b) {
        let dx = b.upper.x - b.lower.x;
        let dy = b.upper.y - b.lower.y;
        let dz = b.upper.z - b.lower.z;
        crate::num::lemma_mul_abs_bound(dx, dy, 0x8000_0000, 0x8000_0000);
        crate::num::lemma_mul_abs_bound(dx, dz, 0x8000_0000, 0x8000_0000);
        crate::num::lemma_mul_abs_bound(dy, dz, 0x8000_0000, 0x8000_0000);
    }
}

/// Stitch two freshly built child subtrees and their parent slot into a
/// well-formed tree whose root covers exactly the appended primitives.
#[verifier::spinoff_prover]
proof fn lemma_interior_glue(
    o0: Seq<Object>,
    o1: Seq<Object>,
    o2: Seq<Object>,
    n0: Seq<BvhNode>,
    n1: Seq<BvhNode>,
    n2: Seq<BvhNode>,
    n3: Seq<BvhNode>,
    lv: Seq<Object>,
    rv: Seq<Object>,
    left_root: usize,
    right_root: usize,
    bbox: Aabb,
)
    requires
        lv.len() > 0,
        rv.len() > 0,
        o1.len() == o0.len() + lv.len(),
        o1.take(o0.len() as int) == o0,
        o2.len() == o1.len() + rv.len(),
        o2.take(o1.len() as int) == o1,
        n1.len() > n0.len(),
        n1.take(n0.len() as int) == n0,
        n2.len() > n1.len(),
        n2.take(n1.len() as int) == n1,
        left_root == n1.len() - 1,
        right_root == n2.len() - 1,
        scene_wf(o2),
        tree_wf(n1, o1),
        tree_wf(n2, o2),
        n1[left_root as int].bbox == boxes_fold(lv),
        box_wf(n1[left_root as int].bbox),
        n2[right_root as int].bbox == boxes_fold(rv),
        box_wf(n2[right_root as int].bbox),
        box_contains(bbox, boxes_fold(lv)),
        box_contains(bbox, boxes_fold(rv)),
        forall|j: int| #[trigger] in_subtree(n1, left_root as int, j) <==> o0.len() <= j < o1.len(),
        forall|j: int| #[trigger] in_subtree(n2, right_root as int, j) <==> o1.len() <= j < o2.len(),
        forall|j: int|
            o0.len() <= j < o1.len() ==> #[trigger] leaf_refs(n1, left_root as int, j) == 1,
        forall|j: int|
            o1.len() <= j < o2.len() ==> #[trigger] leaf_refs(n2, right_root as int, j) == 1,
        o1.skip(o0.len() as int).to_multiset() == lv.to_multiset(),
        o2.skip(o1.len() as int).to_multiset() == rv.to_multiset(),
        n3 == n2.push(
            BvhNode {
                bbox,
                left: Some(left_root),
                right: Some(right_root),
                object: None,
            },
        ),
    ensures
        tree_wf(n3, o2),
        n3[n3.len() - 1].bbox == bbox,
        forall|j: int|
            #[trigger] in_subtree(n3, n3.len() - 1, j) <==> o0.len() <= j < o2.len(),
        forall|j: int|
            o0.len() <= j < o2.len() ==> #[trigger] leaf_refs(n3, n3.len() - 1, j) == 1,
        n3.take(n0.len() as int) == n0,
        o2.take(o0.len() as int) == o0,
        o2.skip(o0.len() as int).to_multiset() == lv.to_multiset().add(rv.to_multiset()),
{
    let parent = n3.len() - 1;
    assert(o2.skip(o0.len() as int) =~= o1.skip(o0.len() as int) + o2.skip(o1.len() as int)) by {
        assert forall|i: int| 0 <= i < o1.len() - o0.len() implies o2.skip(o0.len() as int)[i]
            == o1.skip(o0.len() as int)[i] by {
            assert(o1[o0.len() + i] == o2.take(o1.len() as int)[o0.len() + i]);
        }
    };
    vstd::seq_lib::lemma_multiset_commutative(
        o1.skip(o0.len() as int),
        o2.skip(o1.len() as int),
    );
    let lr = left_root as int;
    let rr = right_root as int;
    assert(n3.take(n2.len() as int) =~= n2);
    assert(n3.take(n1.len() as int) =~= n1);
    assert(n3.take(n0.len() as int) =~= n0);
    assert(o2.take(o0.len() as int) =~= o0);
    assert(o2.take(o2.len() as int) =~= o2);
    assert(n2[lr] == n2.take(n1.len() as int)[lr]);
    assert(n3[lr] == n1[lr]);
    assert(n3[rr] == n2[rr]);

    // well-formedness of every slot
    lemma_tree_wf_prefix(n2, o2, n3, o2);
    assert(node_wf(n3, o2, parent));
    assert forall|k: int| 0 <= k < n3.len() implies node_wf(n3, o2, k) by {
        if k < n2.len() {
            assert(node_wf(n3, o2, k));
        }
    }

    // coverage of the parent slot
    assert forall|j: int|
        #[trigger] in_subtree(n3, parent, j) <==> o0.len() <= j < o2.len() by {
        lemma_in_subtree_prefix(n2, n3, rr, j);
        lemma_in_subtree_prefix(n1, n2, lr, j);
        lemma_in_subtree_prefix(n1, n3, lr, j);
        assert(in_subtree(n3, parent, j) <==> in_subtree(n3, lr, j) || in_subtree(
            n3,
            rr,
            j,
        ));
    }

    // each appended primitive hangs off exactly one leaf
    assert forall|j: int|
        o0.len() <= j < o2.len() implies #[trigger] leaf_refs(n3, parent, j) == 1 by {
        assert(leaf_refs(n3, parent, j) == leaf_refs(n3, lr, j) + leaf_refs(n3, rr, j));
        lemma_leaf_refs_prefix(n2, n3, rr, j);
        lemma_leaf_refs_prefix(n1, n2, lr, j);
        lemma_leaf_refs_prefix(n1, n3, lr, j);
        lemma_leaf_refs_in_subtree(n1, lr, j);
        lemma_leaf_refs_in_subtree(n2, rr, j);
        if j < o1.len() {
            assert(!in_subtree(n2, rr, j));
        } else {
            assert(!in_subtree(n1, lr, j));
        }
    }
}

/// The same stitching for the two-primitive node.
proof fn lemma_case2_glue(
    prims0: Seq<Object>,
    o0: Seq<Object>,
    o1: Seq<Object>,
    o2: Seq<Object>,
    n0: Seq<BvhNode>,
    n1: Seq<BvhNode>,
    n2: Seq<BvhNode>,
    n3: Seq<BvhNode>,
    lv: Seq<Object>,
    rv: Seq<Object>,
    left_root: usize,
    right_root: usize,
    bbox: Aabb,
)
    requires
        prims0.len() == 2,
        lv =~= seq![prims0[0]],
        rv =~= seq![prims0[1]],
        forall|i: int|
            0 <= i < prims0.len() ==> obj_wf(#[trigger] prims0[i]) && !obj_is_mesh(prims0[i]),
        bbox == merge_spec(obj_bbox_spec(prims0[0]), obj_bbox_spec(prims0[1])),
        o1.len() == o0.len() + 1,
        o1.take(o0.len() as int) == o0,
        o2.len() == o1.len() + 1,
        o2.take(o1.len() as int) == o1,
        n1.len() > n0.len(),
        n1.take(n0.len() as int) == n0,
        n2.len() > n1.len(),
        n2.take(n1.len() as int) == n1,
        left_root == n1.len() - 1,
        right_root == n2.len() - 1,
        scene_wf(o2),
        tree_wf(n1, o1),
        tree_wf(n2, o2),
        n1[left_root as int].bbox == boxes_fold(lv),
        box_wf(n1[left_root as int].bbox),
        n2[right_root as int].bbox == boxes_fold(rv),
        box_wf(n2[right_root as int].bbox),
        forall|j: int| #[trigger] in_subtree(n1, left_root as int, j) <==> o0.len() <= j < o1.len(),
        forall|j: int| #[trigger] in_subtree(n2, right_root as int, j) <==> o1.len() <= j < o2.len(),
        forall|j: int|
            o0.len() <= j < o1.len() ==> #[trigger] leaf_refs(n1, left_root as int, j) == 1,
        forall|j: int|
            o1.len() <= j < o2.len() ==> #[trigger] leaf_refs(n2, right_root as int, j) == 1,
        o1.skip(o0.len() as int).to_multiset() == lv.to_multiset(),
        o2.skip(o1.len() as int).to_multiset() == rv.to_multiset(),
        n3 == n2.push(
            BvhNode {
                bbox,
                left: Some(left_root),
                right: Some(right_root),
                object: None,
            },
        ),
    ensures
        tree_wf(n3, o2),
        n3[n3.len() - 1].bbox == bbox,
        n3[n3.len() - 1].bbox == boxes_fold(prims0),
        box_wf(bbox),
        forall|j: int|
            #[trigger] in_subtree(n3, n3.len() - 1, j) <==> o0.len() <= j < o2.len(),
        forall|j: int|
            o0.len() <= j < o2.len() ==> #[trigger] leaf_refs(n3, n3.len() - 1, j) == 1,
        n3.take(n0.len() as int) == n0,
        o2.take(o0.len() as int) == o0,
        o2.skip(o0.len() as int).to_multiset() == prims0.to_multiset(),
{
    assert(prims0 =~= lv + rv);
    vstd::seq_lib::lemma_multiset_commutative(lv, rv);
    let b0 = obj_bbox_spec(prims0[0]);
    let b1 = obj_bbox_spec(prims0[1]);
    lemma_obj_box_wf(prims0[0]);
    lemma_obj_box_wf(prims0[1]);
    lemma_boxes_fold_single(lv);
    lemma_boxes_fold_single(rv);
    assert(lv[0] == prims0[0] && rv[0] == prims0[1]);
    assert(prims0.drop_last() =~= seq![prims0[0]]);
    assert(prims0.last() == prims0[1]);
    lemma_boxes_fold_single(prims0.drop_last());
    assert(boxes_fold(prims0) == merge_spec(b0, b1));
    crate::objects::aabb::lemma_merge_null_identity(b0);
    crate::objects::aabb::lemma_merge_null_identity(b1);
    lemma_interior_glue(
        o0, o1, o2, n0, n1, n2, n3, lv, rv, left_root, right_root, bbox,
    );
}


/// The union box of the primitives and the box of their centroids.
#[verifier::rlimit(100)]
fn compute_bounds(primitives: &Vec<Object>) -> (r: (Aabb, Aabb))
    requires
        forall|i: int|
            0 <= i < primitives@.len() ==> obj_wf(#[trigger] primitives@[i]) && !obj_is_mesh(
                primitives@[i],
            ),
        primitives@.len() >= 1,
    ensures
        r.0 == boxes_fold(primitives@),
        box_wf(r.0),
        box_wf(r.1),
        forall|i: int|
            0 <= i < primitives@.len() ==> box_contains(
                r.0,
                obj_bbox_spec(#[trigger] primitives@[i]),
            ),
        forall|i: int| 0 <= i < primitives@.len() ==> centroid_in(r.1, #[trigger] primitives@[i]),
{
    let ghost prims0 = primitives@;
    let len = primitives.len();
    let mut full_bounds = Aabb::null();
    let mut centroid_bounds = Aabb::null();
    let mut i: usize = 0;
    while i < len
        invariant
            i <= len,
            len == prims0.len(),
            primitives@ == prims0,
            forall|ii: int|
                0 <= ii < prims0.len() ==> obj_wf(#[trigger] prims0[ii]) && !obj_is_mesh(
                    prims0[ii],
                ),
            full_bounds == boxes_fold(prims0.take(i as int)),
            i == 0 ==> centroid_bounds == null_box(),
            i > 0 ==> box_wf(full_bounds),
            i > 0 ==> box_wf(centroid_bounds),
            forall|ii: int|
                0 <= ii < i ==> box_contains(full_bounds, obj_bbox_spec(#[trigger] prims0[ii])),
            forall|ii: int| 0 <= ii < i ==> centroid_in(centroid_bounds, #[trigger] prims0[ii]),
        decreases len - i,
    {
        let ob = &primitives[i];
        proof {
            lemma_obj_box_wf(prims0[i as int]);
        }
        let b = ob.bbox();
        let c = b.centroid();
        let ghost cb_prev = centroid_bounds;
        centroid_bounds = centroid_bounds.merge(Aabb { lower: c, upper: c });
        full_bounds = full_bounds.merge(b);
        proof {
            assert(prims0.take(i as int + 1).drop_last() =~= prims0.take(i as int));
            assert(prims0.take(i as int + 1).last() == prims0[i as int]);
            assert(box_wf(Aabb { lower: c, upper: c }));
            if i == 0 {
                lemma_merge_wf(cb_prev, Aabb { lower: c, upper: c });
                assert(cb_prev == null_box());
            } else {
                lemma_merge_wf(cb_prev, Aabb { lower: c, upper: c });
            }
        }
        i = i + 1;
    }
    proof {
        assert(prims0.take(len as int) =~= prims0);
    }
    (full_bounds, centroid_bounds)
}

/// Split the primitives at the cheapest of eleven bucket boundaries along
/// the centroid bounds' largest extent; when every centroid falls on one
/// side, halve the list instead, so that both sides are non-empty.
fn partition_sah(
    mut primitives: Vec<Object>,
    centroid_bounds: Aabb,
    full: Ghost<Aabb>,
) -> (r: (Vec<Object>, Vec<Object>))
    requires
        forall|i: int|
            0 <= i < primitives@.len() ==> obj_wf(#[trigger] primitives@[i]) && !obj_is_mesh(
                primitives@[i],
            ),
        forall|i: int|
            0 <= i < primitives@.len() ==> box_contains(
                full@,
                obj_bbox_spec(#[trigger] primitives@[i]),
            ),
        forall|i: int| 0 <= i < primitives@.len() ==> centroid_in(
            centroid_bounds,
            #[trigger] primitives@[i],
        ),
        box_wf(centroid_bounds),
        3 <= primitives@.len() <= 0x1000_0000,
    ensures
        r.0@.len() + r.1@.len() == primitives@.len(),
        r.0@.len() >= 1,
        r.1@.len() >= 1,
        r.0@.to_multiset().add(r.1@.to_multiset()) == primitives@.to_multiset(),
        split_ok(primitives@, centroid_bounds, r.0@, r.1@),
        forall|i: int|
            0 <= i < r.0@.len() ==> obj_wf(#[trigger] r.0@[i]) && !obj_is_mesh(r.0@[i])
                && box_contains(full@, obj_bbox_spec(r.0@[i])),
        forall|i: int|
            0 <= i < r.1@.len() ==> obj_wf(#[trigger] r.1@[i]) && !obj_is_mesh(r.1@[i])
                && box_contains(full@, obj_bbox_spec(r.1@[i])),
{
    let ghost prims0 = primitives@;
    let len = primitives.len();

    // split axis: largest extent of the centroid bounds
    let dim = centroid_bounds.max_extent();
    let cb_lo = centroid_bounds.lower.comp(dim);
    let ext = centroid_bounds.diagonal().comp(dim);

    // bucket of each primitive's centroid along that axis
    let mut ids: Vec<usize> = Vec::new();
    let mut k: usize = 0;
    while k < len
        invariant
            k <= len,
            len == prims0.len(),
            primitives@ == prims0,
            ids@.len() == k,
            forall|kk: int|
                0 <= kk < k ==> #[trigger] ids@[kk] as int == bucket_of(
                    centroid_bounds,
                    dim as int,
                    prims0[kk],
                ),
            forall|ii: int|
                0 <= ii < prims0.len() ==> obj_wf(#[trigger] prims0[ii]) && !obj_is_mesh(
                    prims0[ii],
                ),
            forall|ii: int| 0 <= ii < prims0.len() ==> centroid_in(
                centroid_bounds,
                #[trigger] prims0[ii],
            ),
            box_wf(centroid_bounds),
            dim < 3,
            cb_lo == crate::utils::vector::comp3(centroid_bounds.lower, dim as int),
            ext == crate::utils::vector::comp3(centroid_bounds.upper, dim as int) - cb_lo,
        decreases len - k,
    {
        let ob = &primitives[k];
        proof {
            lemma_obj_box_wf(prims0[k as int]);
        }
        let c = ob.bbox().centroid().comp(dim);
        let off = c - cb_lo;
        let id: usize;
        if ext > 0 {
            proof {
                assert(centroid_in(centroid_bounds, prims0[k as int]));
                assert(0 <= off <= ext);
                crate::num::lemma_tdiv_scale_le(off as int, 12, ext as int);
            }
            let idn = crate::num::div_i64(off * 12, ext);
            id = if idn >= 12 {
                11
            } else {
                idn as usize
            };
        } else {
            id = 0;
        }
        proof {
            assert(id as int == bucket_of(centroid_bounds, dim as int, prims0[k as int]));
        }
        ids.push(id);
        k = k + 1;
    }
    let ghost ids0 = ids@;
    proof {
        assert(ids0 =~= ids_of(prims0, centroid_bounds));
    }

    // cheapest of the eleven boundaries, earliest boundary on ties
    let mut min_cost_bucket: usize = 0;
    let mut min_cost: i128 = 0;
    let mut have_cost = false;
    let mut split: usize = 0;
    while split < 11
        invariant
            split <= 11,
            len == prims0.len(),
            primitives@ == prims0,
            ids@ == ids0,
            ids@.len() == len,
            len <= 0x1000_0000,
            forall|ii: int|
                0 <= ii < prims0.len() ==> obj_wf(#[trigger] prims0[ii]) && !obj_is_mesh(
                    prims0[ii],
                ),
            min_cost_bucket < 11,
            have_cost == (split > 0),
            split > 0 ==> min_cost_bucket as int == best_bucket_upto(prims0, ids0, split as int),
            split > 0 ==> min_cost == cost_spec(prims0, ids0, min_cost_bucket as int),
        decreases 11 - split,
    {
        let cost = split_cost(&primitives, &ids, split);
        if !have_cost || cost < min_cost {
            min_cost = cost;
            min_cost_bucket = split;
            have_cost = true;
        }
        split = split + 1;
    }
    proof {
        assert(min_cost_bucket as int == best_bucket_upto(prims0, ids0, 11));
    }

    // partition by bucket boundary; centroids at or before it go left
    let mut left_list: Vec<Object> = Vec::new();
    let mut right_list: Vec<Object> = Vec::new();
    proof {
        broadcast use vstd::seq_lib::group_to_multiset_ensures;
        broadcast use vstd::multiset::group_multiset_axioms;

        assert(left_list@.to_multiset().add(right_list@.to_multiset()).add(
            primitives@.to_multiset(),
        ) =~= prims0.to_multiset());
    }
    while primitives.len() > 0
        invariant
            primitives@ == prims0.take(primitives@.len() as int),
            ids@ == ids0.take(primitives@.len() as int),
            ids0 == ids_of(prims0, centroid_bounds),
            ids@.len() == primitives@.len(),
            left_list@.len() + right_list@.len() + primitives@.len() == len,
            left_list@.to_multiset().add(right_list@.to_multiset()).add(
                primitives@.to_multiset(),
            ) == prims0.to_multiset(),
            min_cost_bucket as int == best_bucket_upto(prims0, ids0, 11),
            forall|ii: int|
                0 <= ii < left_list@.len() ==> bucket_of(
                    centroid_bounds,
                    crate::objects::aabb::max_extent_spec(centroid_bounds),
                    #[trigger] left_list@[ii],
                ) <= min_cost_bucket,
            forall|ii: int|
                0 <= ii < right_list@.len() ==> bucket_of(
                    centroid_bounds,
                    crate::objects::aabb::max_extent_spec(centroid_bounds),
                    #[trigger] right_list@[ii],
                ) > min_cost_bucket,
            forall|ii: int| 0 <= ii < prims0.len() ==> centroid_in(
                centroid_bounds,
                #[trigger] prims0[ii],
            ),
            right_list@.len() == 0 ==> forall|ii: int|
                primitives@.len() <= ii < len ==> bucket_of(
                    centroid_bounds,
                    crate::objects::aabb::max_extent_spec(centroid_bounds),
                    #[trigger] prims0[ii],
                ) <= min_cost_bucket,
            left_list@.len() == 0 ==> forall|ii: int|
                primitives@.len() <= ii < len ==> bucket_of(
                    centroid_bounds,
                    crate::objects::aabb::max_extent_spec(centroid_bounds),
                    #[trigger] prims0[ii],
                ) > min_cost_bucket,
            len == prims0.len(),
            forall|ii: int|
                0 <= ii < prims0.len() ==> obj_wf(#[trigger] prims0[ii]) && !obj_is_mesh(
                    prims0[ii],
                ),
            forall|ii: int|
                0 <= ii < prims0.len() ==> box_contains(
                    full@,
                    obj_bbox_spec(#[trigger] prims0[ii]),
                ),
            forall|ii: int|
                0 <= ii < left_list@.len() ==> obj_wf(#[trigger] left_list@[ii]) && !obj_is_mesh(
                    left_list@[ii],
                ) && box_contains(full@, obj_bbox_spec(left_list@[ii])),
            forall|ii: int|
                0 <= ii < right_list@.len() ==> obj_wf(#[trigger] right_list@[ii]) && !obj_is_mesh(
                    right_list@[ii],
                ) && box_contains(full@, obj_bbox_spec(right_list@[ii])),
        decreases primitives@.len(),
    {
        proof {
            let cur = primitives@.len() as int;
            assert(prims0.take(cur).last() == prims0[cur - 1]);
            assert(prims0.take(cur).drop_last() =~= prims0.take(cur - 1));
            assert(ids0.take(cur).last() == ids0[cur - 1]);
            assert(ids0.take(cur).drop_last() =~= ids0.take(cur - 1));
            lemma_bucket_in_range(
                centroid_bounds,
                crate::objects::aabb::max_extent_spec(centroid_bounds),
                prims0[cur - 1],
            );
            assert(ids0[cur - 1] as int == bucket_of(
                centroid_bounds,
                crate::objects::aabb::max_extent_spec(centroid_bounds),
                prims0[cur - 1],
            ));
        }
        let ghost pre = primitives@;
        let ghost left_pre = left_list@;
        let ghost right_pre = right_list@;
        let ob = primitives.pop().unwrap();
        let id = ids.pop().unwrap();
        if id <= min_cost_bucket {
            left_list.push(ob);
        } else {
            right_list.push(ob);
        }
        proof {
            broadcast use vstd::seq_lib::group_to_multiset_ensures;
            broadcast use vstd::multiset::group_multiset_axioms;

            assert(pre.remove(pre.len() - 1) =~= primitives@);
            assert(pre.to_multiset().count(ob) > 0) by {
                assert(pre.contains(ob));
            };
            if id <= min_cost_bucket {
                assert(left_list@.to_multiset() =~= left_pre.to_multiset().insert(ob));
            } else {
                assert(right_list@.to_multiset() =~= right_pre.to_multiset().insert(ob));
            }
            assert(left_list@.to_multiset().add(right_list@.to_multiset()).add(
                primitives@.to_multiset(),
            ) =~= prims0.to_multiset());
        }
    }

    proof {
        broadcast use vstd::seq_lib::group_to_multiset_ensures;
        broadcast use vstd::multiset::group_multiset_axioms;

        assert(primitives@ =~= Seq::<Object>::empty());
        assert(left_list@.to_multiset().add(right_list@.to_multiset()) =~= prims0.to_multiset());
    }
    // a one-sided split cannot recurse; halve the list instead
    if left_list.len() == 0 || right_list.len() == 0 {
        let ghost one_sided = (forall|ii: int|
            0 <= ii < prims0.len() ==> bucket_of(
                centroid_bounds,
                crate::objects::aabb::max_extent_spec(centroid_bounds),
                #[trigger] prims0[ii],
            ) <= min_cost_bucket) || (forall|ii: int|
            0 <= ii < prims0.len() ==> bucket_of(
                centroid_bounds,
                crate::objects::aabb::max_extent_spec(centroid_bounds),
                #[trigger] prims0[ii],
            ) > min_cost_bucket);
        proof {
            assert(one_sided);
        }
        while right_list.len() > 0
            invariant
                one_sided,
                one_sided == (forall|ii: int|
                    0 <= ii < prims0.len() ==> bucket_of(
                        centroid_bounds,
                        crate::objects::aabb::max_extent_spec(centroid_bounds),
                        #[trigger] prims0[ii],
                    ) <= min_cost_bucket) || (forall|ii: int|
                    0 <= ii < prims0.len() ==> bucket_of(
                        centroid_bounds,
                        crate::objects::aabb::max_extent_spec(centroid_bounds),
                        #[trigger] prims0[ii],
                    ) > min_cost_bucket),
                left_list@.len() + right_list@.len() == len,
                left_list@.to_multiset().add(right_list@.to_multiset()) == prims0.to_multiset(),
                forall|ii: int|
                    0 <= ii < left_list@.len() ==> obj_wf(#[trigger] left_list@[ii])
                        && !obj_is_mesh(left_list@[ii]) && box_contains(
                        full@,
                        obj_bbox_spec(left_list@[ii]),
                    ),
                forall|ii: int|
                    0 <= ii < right_list@.len() ==> obj_wf(#[trigger] right_list@[ii])
                        && !obj_is_mesh(right_list@[ii]) && box_contains(
                        full@,
                        obj_bbox_spec(right_list@[ii]),
                    ),
            decreases right_list@.len(),
        {
            let ghost left_pre = left_list@;
            let ghost right_pre = right_list@;
            let ob = right_list.pop().unwrap();
            left_list.push(ob);
            proof {
                broadcast use vstd::seq_lib::group_to_multiset_ensures;
                broadcast use vstd::multiset::group_multiset_axioms;

                assert(right_pre.remove(right_pre.len() - 1) =~= right_list@);
                assert(right_pre.to_multiset().count(ob) > 0) by {
                    assert(right_pre.contains(ob));
                };
                assert(left_list@.to_multiset() =~= left_pre.to_multiset().insert(ob));
                assert(left_list@.to_multiset().add(right_list@.to_multiset())
                    =~= prims0.to_multiset());
            }
        }
        let half = left_list.len() / 2;
        proof {
            assert(half == len / 2);
            assert(1 <= half < len);
        }
        while right_list.len() < half
            invariant
                one_sided == (forall|ii: int|
                    0 <= ii < prims0.len() ==> bucket_of(
                        centroid_bounds,
                        crate::objects::aabb::max_extent_spec(centroid_bounds),
                        #[trigger] prims0[ii],
                    ) <= min_cost_bucket) || (forall|ii: int|
                    0 <= ii < prims0.len() ==> bucket_of(
                        centroid_bounds,
                        crate::objects::aabb::max_extent_spec(centroid_bounds),
                        #[trigger] prims0[ii],
                    ) > min_cost_bucket),
                one_sided,
                half == len / 2,
                half < len,
                left_list@.len() + right_list@.len() == len,
                right_list@.len() <= half,
                left_list@.to_multiset().add(right_list@.to_multiset()) == prims0.to_multiset(),
                forall|ii: int|
                    0 <= ii < left_list@.len() ==> obj_wf(#[trigger] left_list@[ii])
                        && !obj_is_mesh(left_list@[ii]) && box_contains(
                        full@,
                        obj_bbox_spec(left_list@[ii]),
                    ),
                forall|ii: int|
                    0 <= ii < right_list@.len() ==> obj_wf(#[trigger] right_list@[ii])
                        && !obj_is_mesh(right_list@[ii]) && box_contains(
                        full@,
                        obj_bbox_spec(right_list@[ii]),
                    ),
            decreases half - right_list@.len(),
        {
            let ghost left_pre = left_list@;
            let ghost right_pre = right_list@;
            let ob = left_list.pop().unwrap();
            right_list.push(ob);
            proof {
                broadcast use vstd::seq_lib::group_to_multiset_ensures;
                broadcast use vstd::multiset::group_multiset_axioms;

                assert(left_pre.remove(left_pre.len() - 1) =~= left_list@);
                assert(left_pre.to_multiset().count(ob) > 0) by {
                    assert(left_pre.contains(ob));
                };
                assert(right_list@.to_multiset() =~= right_pre.to_multiset().insert(ob));
                assert(left_list@.to_multiset().add(right_list@.to_multiset())
                    =~= prims0.to_multiset());
            }
        }
    }
    (left_list, right_list)
}

/// The bucket (0 to 11) of a primitive's centroid along `dim`, by its
/// normalized offset within the centroid bounds; an axis without extent
/// puts everything in the first bucket.
pub open spec fn bucket_of(cb: Aabb, dim: int, o: Object) -> int {
    let c = crate::utils::vector::comp3(obj_centroid(o), dim);
    let lo = crate::utils::vector::comp3(cb.lower, dim);
    let ext = crate::utils::vector::comp3(cb.upper, dim) - lo;
    if ext > 0 {
        let q = crate::num::tdiv((c - lo) * 12, ext);
        if q >= 12 {
            11
        } else {
            q
        }
    } else {
        0
    }
}

/// A centroid inside the bounds lands in one of the twelve buckets.
proof fn lemma_bucket_in_range(cb: Aabb, dim: int, o: Object)
    requires
        centroid_in(cb, o),
        0 <= dim < 3,
    ensures
        0 <= bucket_of(cb, dim, o) <= 11,
{
    let c = crate::utils::vector::comp3(obj_centroid(o), dim);
    let lo = crate::utils::vector::comp3(cb.lower, dim);
    let ext = crate::utils::vector::comp3(cb.upper, dim) - lo;
    if ext > 0 {
        assert(0 <= c - lo <= ext);
        crate::num::lemma_tdiv_scale_le(c - lo, 12, ext);
    }
}

/// Every primitive's bucket along the centroid bounds' largest extent.
pub open spec fn ids_of(s: Seq<Object>, cb: Aabb) -> Seq<usize> {
    Seq::new(
        s.len(),
        |i: int| bucket_of(cb, crate::objects::aabb::max_extent_spec(cb), s[i]) as usize,
    )
}

/// The cheapest of the first `n` bucket boundaries, the earliest on ties.
pub open spec fn best_bucket_upto(s: Seq<Object>, ids: Seq<usize>, n: int) -> int
    decreases n,
{
    if n <= 1 {
        0
    } else {
        let prev = best_bucket_upto(s, ids, n - 1);
        if cost_spec(s, ids, n - 1) < cost_spec(s, ids, prev) {
            n - 1
        } else {
            prev
        }
    }
}

/// What a finished split promises: either centroids at or before the
/// cheapest of the eleven boundaries went left and the rest right, or —
/// when every centroid fell on one side of that boundary — the list was
/// halved instead.
pub open spec fn split_ok(s: Seq<Object>, cb: Aabb, left: Seq<Object>, right: Seq<Object>) -> bool {
    let dim = crate::objects::aabb::max_extent_spec(cb);
    let b = best_bucket_upto(s, ids_of(s, cb), 11);
    ||| {
        &&& forall|i: int| 0 <= i < left.len() ==> bucket_of(cb, dim, #[trigger] left[i]) <= b
        &&& forall|i: int| 0 <= i < right.len() ==> bucket_of(cb, dim, #[trigger] right[i]) > b
    }
    ||| {
        &&& (forall|i: int| 0 <= i < s.len() ==> bucket_of(cb, dim, #[trigger] s[i]) <= b) || (
        forall|i: int| 0 <= i < s.len() ==> bucket_of(cb, dim, #[trigger] s[i]) > b)
        &&& right.len() == s.len() / 2
        &&& left.len() == s.len() - s.len() / 2
    }
}

/// Counts and union boxes of the two sides of one bucket boundary, folded
/// left to right: primitives whose bucket is at or before the boundary on
/// one side, the rest on the other.
pub open spec fn side_fold(s: Seq<Object>, ids: Seq<usize>, split: int) -> (
    int,
    Aabb,
    int,
    Aabb,
)
    decreases s.len(),
{
    if s.len() == 0 {
        (0, null_box(), 0, null_box())
    } else {
        let p = side_fold(s.drop_last(), ids.drop_last(), split);
        if ids[s.len() - 1] <= split {
            (p.0 + 1, merge_spec(p.1, obj_bbox_spec(s.last())), p.2, p.3)
        } else {
            (p.0, p.1, p.2 + 1, merge_spec(p.3, obj_bbox_spec(s.last())))
        }
    }
}

/// The count-weighted area sum the split heuristic minimizes. The fixed
/// traversal constant and the division by the full bounds' area that the
/// textbook cost carries are the same for every boundary, so dropping
/// them moves every cost by the same monotone map and cannot change which
/// boundary wins.
pub open spec fn cost_spec(s: Seq<Object>, ids: Seq<usize>, split: int) -> int {
    let f = side_fold(s, ids, split);
    let a0 = if f.0 > 0 {
        crate::objects::aabb::area_spec(f.1)
    } else {
        0
    };
    let a1 = if f.2 > 0 {
        crate::objects::aabb::area_spec(f.3)
    } else {
        0
    };
    f.0 * a0 + f.2 * a1
}

/// The count-weighted area sum of the two sides of one bucket boundary.
#[verifier::rlimit(100)]
fn split_cost(primitives: &Vec<Object>, ids: &Vec<usize>, split: usize) -> (cost: i128)
    requires
        forall|i: int|
            0 <= i < primitives@.len() ==> obj_wf(#[trigger] primitives@[i]) && !obj_is_mesh(
                primitives@[i],
            ),
        ids@.len() == primitives@.len(),
        primitives@.len() <= 0x1000_0000,
    ensures
        cost == cost_spec(primitives@, ids@, split as int),
{
    let ghost prims0 = primitives@;
    let len = primitives.len();
    let mut count0: i128 = 0;
    let mut count1: i128 = 0;
    let mut b0 = Aabb::null();
    let mut b1 = Aabb::null();
    let mut k2: usize = 0;
    while k2 < len
        invariant
            k2 <= len,
            len == prims0.len(),
            primitives@ == prims0,
            ids@.len() == len,
            len <= 0x1000_0000,
            forall|ii: int|
                0 <= ii < prims0.len() ==> obj_wf(#[trigger] prims0[ii]) && !obj_is_mesh(
                    prims0[ii],
                ),
            0 <= count0 <= k2,
            0 <= count1 <= k2,
            (count0 as int, b0, count1 as int, b1) == side_fold(
                prims0.take(k2 as int),
                ids@.take(k2 as int),
                split as int,
            ),
            count0 == 0 ==> b0 == null_box(),
            count1 == 0 ==> b1 == null_box(),
            count0 > 0 ==> box_wf(b0),
            count1 > 0 ==> box_wf(b1),
        decreases len - k2,
    {
        proof {
            assert(prims0.take(k2 as int + 1).drop_last() =~= prims0.take(k2 as int));
            assert(ids@.take(k2 as int + 1).drop_last() =~= ids@.take(k2 as int));
            assert(prims0.take(k2 as int + 1).last() == prims0[k2 as int]);
            assert(ids@.take(k2 as int + 1)[k2 as int] == ids@[k2 as int]);
        }
        let ob = &primitives[k2];
        proof {
            lemma_obj_box_wf(prims0[k2 as int]);
        }
        let bb = ob.bbox();
        if ids[k2] <= split {
            count0 = count0 + 1;
            proof {
                lemma_merge_wf(b0, bb);
                if count0 == 1 {
                    assert(b0 == null_box());
                }
            }
            b0 = b0.merge(bb);
        } else {
            count1 = count1 + 1;
            proof {
                lemma_merge_wf(b1, bb);
                if count1 == 1 {
                    assert(b1 == null_box());
                }
            }
            b1 = b1.merge(bb);
        }
        k2 = k2 + 1;
    }
    proof {
        assert(prims0.take(len as int) =~= prims0);
        assert(ids@.take(len as int) =~= ids@);
    }
    let area0: i128 = if count0 > 0 {
        b0.area()
    } else {
        0
    };
    let area1: i128 = if count1 > 0 {
        b1.area()
    } else {
        0
    };
    proof {
        lemma_area_bound(b0);
        lemma_area_bound(b1);
        crate::num::lemma_mul_abs_bound(
            count0 as int,
            area0 as int,
            0x1000_0000,
            0x2_0000_0000_0000_0000,
        );
        crate::num::lemma_mul_abs_bound(
            count1 as int,
            area1 as int,
            0x1000_0000,
            0x2_0000_0000_0000_0000,
        );
    }
    count0 * area0 + count1 * area1
}


/// The hierarchy agrees with the brute-force scan: over the same
/// primitive list, ray and range, an answer satisfying the traversal's
/// contract and an answer satisfying the linear scan's contract miss
/// together, and when they hit, they report the same nearest parameter.
pub proof fn lemma_bvh_matches_scan(
    nodes: Seq<BvhNode>,
    objects: Seq<Object>,
    root: int,
    r: Ray,
    t_min: int,
    t_max: int,
    bvh_res: Option<IntersectResult>,
    scan_res: Option<IntersectResult>,
)
    requires
        forall|j: int| #[trigger] in_subtree(nodes, root, j) <==> 0 <= j < objects.len(),
        (bvh_res is None) == subtree_miss(nodes, objects, root, r, t_min, t_max),
        bvh_res matches Some(b) ==> subtree_hit_valid(nodes, objects, root, r, t_min, t_max, b)
            && subtree_hit_min(nodes, objects, root, r, t_min, t_max, b.t as int),
        (scan_res is None) == crate::objects::world::scene_miss(objects, r, t_min, t_max),
        scan_res matches Some(s) ==> crate::objects::world::hit_valid(
            objects,
            r,
            t_min,
            t_max,
            s,
        ) && crate::objects::world::hit_minimal(objects, r, t_min, t_max, s.t as int),
    ensures
        (bvh_res is Some) == (scan_res is Some),
        bvh_res matches Some(b) ==> scan_res matches Some(s) && b.t == s.t,
        bvh_res is Some && scan_res is Some && (forall|i: int, k: int|
            0 <= i < objects.len() && 0 <= k < objects.len() && obj_first_t(
                objects[i],
                r,
                t_min,
                t_max,
            ) == Some(bvh_res->0.t as int) && obj_first_t(objects[k], r, t_min, t_max) == Some(
                bvh_res->0.t as int,
            ) ==> #[trigger] obj_hit_record(objects[i], r, t_min, t_max)
                == #[trigger] obj_hit_record(objects[k], r, t_min, t_max)) ==> bvh_res->0
            == scan_res->0,
{
    match bvh_res {
        None => {
            if scan_res is Some {
                let s = scan_res->0;
                let js = choose|i: int|
                    0 <= i < objects.len() && (#[trigger] obj_first_t(objects[i], r, t_min, t_max))
                        == Some(s.t as int) && s == obj_hit_record(objects[i], r, t_min, t_max);
                assert(in_subtree(nodes, root, js));
                assert(false);
            }
        },
        Some(b) => {
            let jb = choose|j: int|
                #[trigger] in_subtree(nodes, root, j) && obj_first_t(objects[j], r, t_min, t_max)
                    == Some(b.t as int) && b == obj_hit_record(objects[j], r, t_min, t_max);
            assert(0 <= jb < objects.len());
            if scan_res is None {
                assert(obj_first_t(objects[jb], r, t_min, t_max) is None);
                assert(false);
            }
            let s = scan_res->0;
            let js = choose|i: int|
                0 <= i < objects.len() && (#[trigger] obj_first_t(objects[i], r, t_min, t_max))
                    == Some(s.t as int) && s == obj_hit_record(objects[i], r, t_min, t_max);
            assert(in_subtree(nodes, root, js));
            assert(b.t <= s.t);
            assert(s.t <= b.t);
        },
    }
}


/// A subtree member is a valid index into the primitive list.
pub proof fn lemma_subtree_objects(nodes: Seq<BvhNode>, objects: Seq<Object>, k: int, j: int)
    requires
        tree_wf(nodes, objects),
        0 <= k < nodes.len(),
        in_subtree(nodes, k, j),
    ensures
        0 <= j < objects.len(),
    decreases k,
{
    lemma_subtree_box(nodes, objects, k, j);
}

} // verus!
