//! Triangle meshes: shared vertex, normal and index buffers. A mesh never
//! answers intersection queries itself; it is divided into one triangle
//! per index triple before the acceleration structure is built.

use vstd::prelude::*;

verus! {

use crate::{POS_LIMIT, DIR_LIMIT};
use crate::utils::vector::{Vec3, bounded};
use crate::objects::aabb::Aabb;
use crate::objects::triangle::{Triangle, VertexNormals};
use crate::objects::Object;

#[derive(Clone, Debug)]
pub struct Mesh {
    pub vertices: Vec<Vec3>,
    pub normals: Vec<Vec3>,
    pub indexes: Vec<(usize, usize)>,
    pub index_amt: usize,
    pub material: usize,
}

pub open spec fn mesh_wf(m: Mesh) -> bool {
    &&& m.index_amt == m.indexes@.len()
    &&& m.index_amt % 3 == 0
    &&& forall|k: int|
        0 <= k < m.indexes@.len() ==> (#[trigger] m.indexes@[k]).0 < m.vertices@.len()
    &&& (m.normals@.len() > 0 ==> forall|k: int|
        0 <= k < m.indexes@.len() ==> (#[trigger] m.indexes@[k]).1 < m.normals@.len())
    &&& forall|k: int|
        0 <= k < m.vertices@.len() ==> bounded(#[trigger] m.vertices@[k], POS_LIMIT as int)
    &&& forall|k: int|
        0 <= k < m.normals@.len() ==> bounded(#[trigger] m.normals@[k], DIR_LIMIT as int)
}

/// The triangle cut from the mesh's `j`-th index triple.
pub open spec fn mesh_tri(m: Mesh, j: int) -> Triangle {
    Triangle {
        v0: m.vertices@[m.indexes@[3 * j].0 as int],
        v1: m.vertices@[m.indexes@[3 * j + 1].0 as int],
        v2: m.vertices@[m.indexes@[3 * j + 2].0 as int],
        normals: if m.normals@.len() > 0 {
            Some(
                VertexNormals {
                    n0: m.normals@[m.indexes@[3 * j].1 as int],
                    n1: m.normals@[m.indexes@[3 * j + 1].1 as int],
                    n2: m.normals@[m.indexes@[3 * j + 2].1 as int],
                },
            )
        } else {
            None
        },
        material: m.material as usize,
    }
}

/// Component-wise extremes of a vertex list, starting from the empty
/// (sentinel) box.
pub open spec fn mesh_bbox_fold(vs: Seq<Vec3>) -> Aabb
    decreases vs.len(),
{
    if vs.len() == 0 {
        Aabb {
            lower: Vec3 { x: i64::MAX, y: i64::MAX, z: i64::MAX },
            upper: Vec3 { x: i64::MIN, y: i64::MIN, z: i64::MIN },
        }
    } else {
        let p = mesh_bbox_fold(vs.drop_last());
        let v = vs.last();
        Aabb {
            lower: Vec3 {
                x: if v.x < p.lower.x { v.x } else { p.lower.x },
                y: if v.y < p.lower.y { v.y } else { p.lower.y },
                z: if v.z < p.lower.z { v.z } else { p.lower.z },
            },
            upper: Vec3 {
                x: if v.x > p.upper.x { v.x } else { p.upper.x },
                y: if v.y > p.upper.y { v.y } else { p.upper.y },
                z: if v.z > p.upper.z { v.z } else { p.upper.z },
            },
        }
    }
}

impl Mesh {
    /// Build a mesh. Geometry whose index count is not a multiple of three,
    /// or whose indices point outside the buffers, is malformed and is
    /// rejected before construction rather than discovered mid-render.
    pub fn new(
        vertices: Vec<Vec3>,
        indexes: Vec<(usize, usize)>,
        normals: Vec<Vec3>,
        mat: usize,
    ) -> (m: Mesh)
        requires
            indexes@.len() % 3 == 0,
            forall|k: int| 0 <= k < indexes@.len() ==> (#[trigger] indexes@[k]).0 < vertices@.len(),
            normals@.len() > 0 ==> forall|k: int|
                0 <= k < indexes@.len() ==> (#[trigger] indexes@[k]).1 < normals@.len(),
            forall|k: int|
                0 <= k < vertices@.len() ==> bounded(#[trigger] vertices@[k], POS_LIMIT as int),
            forall|k: int|
                0 <= k < normals@.len() ==> bounded(#[trigger] normals@[k], DIR_LIMIT as int),
        ensures
            mesh_wf(m),
            m.vertices@ == vertices@,
            m.normals@ == normals@,
            m.indexes@ == indexes@,
            m.index_amt == indexes@.len(),
            m.material == mat,
    {
        let index_amt = indexes.len();
        Mesh { index_amt, vertices, indexes, normals, material: mat }
    }

    /// The component-wise extremes of all vertices.
    pub fn bbox(&self) -> (b: Aabb)
        ensures
            b == mesh_bbox_fold(self.vertices@),
    {
        let mut lower = Vec3::inf();
        let mut upper = Vec3::neg_inf();
        let n = self.vertices.len();
        let mut i: usize = 0;
        while i < n
            invariant
                i <= n,
                n == self.vertices@.len(),
                (Aabb { lower, upper }) == mesh_bbox_fold(self.vertices@.take(i as int)),
            decreases n - i,
        {
            let v = self.vertices[i];
            proof {
                assert(self.vertices@.take(i as int + 1).drop_last() =~= self.vertices@.take(
                    i as int,
                ));
                assert(self.vertices@.take(i as int + 1).last() == self.vertices@[i as int]);
            }
            if v.x < lower.x { lower.x = v.x }
            if v.y < lower.y { lower.y = v.y }
            if v.z < lower.z { lower.z = v.z }
            if v.x > upper.x { upper.x = v.x }
            if v.y > upper.y { upper.y = v.y }
            if v.z > upper.z { upper.z = v.z }
            i = i + 1;
        }
        proof {
            assert(self.vertices@.take(n as int) =~= self.vertices@);
        }
        Aabb { lower, upper }
    }

    /// One triangle per index triple, sharing the mesh's material.
    pub fn divide(&self) -> (r: Vec<Object>)
        requires
            mesh_wf(*self),
        ensures
            r@.len() == self.index_amt as int / 3,
            forall|j: int|
                0 <= j < r@.len() ==> #[trigger] r@[j] == Object::Triangle(mesh_tri(*self, j)),
    {
        let count = self.index_amt / 3;
        let mut triangles: Vec<Object> = Vec::new();
        let mut j: usize = 0;
        while j < count
            invariant
                j <= count,
                count == self.index_amt as int / 3,
                mesh_wf(*self),
                triangles@.len() == j,
                forall|jj: int|
                    0 <= jj < j ==> #[trigger] triangles@[jj] == Object::Triangle(
                        mesh_tri(*self, jj),
                    ),
            decreases count - j,
        {
            let i = 3 * j;
            proof {
                assert(3 * (count as int) <= self.index_amt);
                assert(i + 2 < self.indexes@.len());
            }
            let (i0, n0) = self.indexes[i];
            let (i1, n1) = self.indexes[i + 1];
            let (i2, n2) = self.indexes[i + 2];
            let normals = if self.normals.len() > 0 {
                Some(
                    VertexNormals {
                        n0: self.normals[n0],
                        n1: self.normals[n1],
                        n2: self.normals[n2],
                    },
                )
            } else {
                None
            };
            let tri = Triangle {
                v0: self.vertices[i0],
                v1: self.vertices[i1],
                v2: self.vertices[i2],
                normals,
                material: self.material,
            };
            triangles.push(Object::Triangle(tri));
            j = j + 1;
        }
        triangles
    }
}

} // verus!
