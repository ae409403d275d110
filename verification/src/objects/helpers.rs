//! Builders for simple rectangle and box meshes.

use vstd::prelude::*;

verus! {

use crate::POS_LIMIT;
use crate::utils::vector::{Vec3, bounded};
use crate::objects::mesh::{Mesh, mesh_wf};

/// A vertical rectangle spanning `v0` to `v1`, two triangles.
pub fn rect_ver(v0: Vec3, v1: Vec3, mat: usize) -> (m: Mesh)
    requires
        bounded(v0, POS_LIMIT as int),
        bounded(v1, POS_LIMIT as int),
    ensures
        mesh_wf(m),
        m.index_amt == 6,
        m.material == mat,
{
    let mut vertices: Vec<Vec3> = Vec::new();
    vertices.push(v0);
    vertices.push(Vec3::new(v1.x, v0.y, v1.z));
    vertices.push(v1);
    vertices.push(Vec3::new(v0.x, v1.y, v0.z));
    let mut indexes: Vec<(usize, usize)> = Vec::new();
    indexes.push((0, 0));
    indexes.push((1, 0));
    indexes.push((3, 0));
    indexes.push((1, 0));
    indexes.push((2, 0));
    indexes.push((3, 0));
    Mesh::new(vertices, indexes, Vec::new(), mat)
}

/// A horizontal rectangle spanning `v0` to `v1`, two triangles.
pub fn rect_hor(v0: Vec3, v1: Vec3, mat: usize) -> (m: Mesh)
    requires
        bounded(v0, POS_LIMIT as int),
        bounded(v1, POS_LIMIT as int),
    ensures
        mesh_wf(m),
        m.index_amt == 6,
        m.material == mat,
{
    let mut vertices: Vec<Vec3> = Vec::new();
    vertices.push(v0);
    vertices.push(Vec3::new(v1.x, v1.y, v0.z));
    vertices.push(v1);
    vertices.push(Vec3::new(v0.x, v0.y, v1.z));
    let mut indexes: Vec<(usize, usize)> = Vec::new();
    indexes.push((0, 0));
    indexes.push((1, 0));
    indexes.push((2, 0));
    indexes.push((0, 0));
    indexes.push((2, 0));
    indexes.push((3, 0));
    Mesh::new(vertices, indexes, Vec::new(), mat)
}

/// The horizontal rectangle with its winding reversed, so its face looks
/// the other way.
pub fn rect_hor_rev(v0: Vec3, v1: Vec3, mat: usize) -> (m: Mesh)
    requires
        bounded(v0, POS_LIMIT as int),
        bounded(v1, POS_LIMIT as int),
    ensures
        mesh_wf(m),
        m.index_amt == 6,
        m.material == mat,
{
    let mut vertices: Vec<Vec3> = Vec::new();
    vertices.push(v0);
    vertices.push(Vec3::new(v1.x, v1.y, v0.z));
    vertices.push(v1);
    vertices.push(Vec3::new(v0.x, v0.y, v1.z));
    let mut indexes: Vec<(usize, usize)> = Vec::new();
    indexes.push((0, 0));
    indexes.push((2, 0));
    indexes.push((1, 0));
    indexes.push((0, 0));
    indexes.push((3, 0));
    indexes.push((2, 0));
    Mesh::new(vertices, indexes, Vec::new(), mat)
}

/// An axis-aligned box with corner `p`, width `l`, height `h` and depth
/// `b` (towards negative z), twelve triangles.
pub fn cuboid(p: Vec3, l: i64, h: i64, b: i64, mat: usize) -> (m: Mesh)
    requires
        bounded(p, POS_LIMIT as int / 2),
        0 <= l <= POS_LIMIT / 2,
        0 <= h <= POS_LIMIT / 2,
        0 <= b <= POS_LIMIT / 2,
    ensures
        mesh_wf(m),
        m.index_amt == 36,
        m.material == mat,
{
    let mut vertices: Vec<Vec3> = Vec::new();
    vertices.push(Vec3::new(p.x, p.y, p.z));
    vertices.push(Vec3::new(p.x + l, p.y, p.z));
    vertices.push(Vec3::new(p.x + l, p.y + h, p.z));
    vertices.push(Vec3::new(p.x, p.y + h, p.z));
    vertices.push(Vec3::new(p.x, p.y, p.z - b));
    vertices.push(Vec3::new(p.x + l, p.y, p.z - b));
    vertices.push(Vec3::new(p.x + l, p.y + h, p.z - b));
    vertices.push(Vec3::new(p.x, p.y + h, p.z - b));
    let mut indexes: Vec<(usize, usize)> = Vec::new();
    // front
    indexes.push((0, 0));
    indexes.push((1, 0));
    indexes.push((2, 0));
    indexes.push((0, 0));
    indexes.push((2, 0));
    indexes.push((3, 0));
    // back
    indexes.push((5, 0));
    indexes.push((4, 0));
    indexes.push((7, 0));
    indexes.push((5, 0));
    indexes.push((7, 0));
    indexes.push((6, 0));
    // right
    indexes.push((1, 0));
    indexes.push((5, 0));
    indexes.push((6, 0));
    indexes.push((1, 0));
    indexes.push((6, 0));
    indexes.push((2, 0));
    // left
    indexes.push((4, 0));
    indexes.push((0, 0));
    indexes.push((3, 0));
    indexes.push((4, 0));
    indexes.push((3, 0));
    indexes.push((7, 0));
    // top
    indexes.push((3, 0));
    indexes.push((2, 0));
    indexes.push((6, 0));
    indexes.push((3, 0));
    indexes.push((6, 0));
    indexes.push((7, 0));
    // bottom
    indexes.push((4, 0));
    indexes.push((5, 0));
    indexes.push((1, 0));
    indexes.push((4, 0));
    indexes.push((1, 0));
    indexes.push((0, 0));
    Mesh::new(vertices, indexes, Vec::new(), mat)
}

} // verus!
