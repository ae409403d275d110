use pathtracer::objects::helpers::{cuboid, rect_hor, rect_ver};
use pathtracer::objects::mesh::Mesh;
use pathtracer::objects::nullobject::NullObject;
use pathtracer::objects::Object;
use pathtracer::utils::vector::Vec3;
use pathtracer::FP_ONE;

#[test]
fn mesh_divides_into_triangles() {
    let vertices = vec![
        Vec3::new(0, 0, 0),
        Vec3::new(FP_ONE, 0, 0),
        Vec3::new(0, FP_ONE, 0),
        Vec3::new(FP_ONE, FP_ONE, 0),
    ];
    let indexes = vec![(0, 0), (1, 0), (2, 0), (1, 0), (3, 0), (2, 0)];
    let mesh = Mesh::new(vertices, indexes, Vec::new(), 5);
    let tris = mesh.divide();
    assert_eq!(tris.len(), 2);
    match &tris[0] {
        Object::Triangle(t) => {
            assert_eq!(t.v0, Vec3::new(0, 0, 0));
            assert_eq!(t.v1, Vec3::new(FP_ONE, 0, 0));
            assert_eq!(t.v2, Vec3::new(0, FP_ONE, 0));
            assert_eq!(t.material, 5);
            assert!(t.normals.is_none());
        }
        other => panic!("expected a triangle, got {:?}", other),
    }
}

#[test]
fn mesh_bbox_covers_vertices() {
    let vertices = vec![
        Vec3::new(-FP_ONE, 0, 0),
        Vec3::new(FP_ONE, 2 * FP_ONE, 0),
        Vec3::new(0, -3 * FP_ONE, FP_ONE),
    ];
    let indexes = vec![(0, 0), (1, 0), (2, 0)];
    let mesh = Mesh::new(vertices, indexes, Vec::new(), 0);
    let bb = mesh.bbox();
    assert_eq!(bb.lower, Vec3::new(-FP_ONE, -3 * FP_ONE, 0));
    assert_eq!(bb.upper, Vec3::new(FP_ONE, 2 * FP_ONE, FP_ONE));
}

#[test]
fn rect_builders_make_quads() {
    let a = Vec3::new(0, 0, 0);
    let b = Vec3::new(FP_ONE, FP_ONE, FP_ONE);
    assert_eq!(rect_ver(a, b, 1).divide().len(), 2);
    assert_eq!(rect_hor(a, b, 1).divide().len(), 2);
}

#[test]
fn cuboid_has_twelve_faces() {
    let m = cuboid(Vec3::new(0, 0, 0), FP_ONE, FP_ONE, FP_ONE, 2);
    assert_eq!(m.index_amt, 36);
    assert_eq!(m.divide().len(), 12);
}

#[test]
fn null_object_exists() {
    let n = NullObject;
    assert_eq!(n, NullObject);
}
