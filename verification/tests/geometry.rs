use pathtracer::{FP_ONE, T_FAR};
use pathtracer::objects::aabb::Aabb;
use pathtracer::objects::sphere::Sphere;
use pathtracer::objects::triangle::Triangle;
use pathtracer::utils::ray::Ray;
use pathtracer::utils::vector::Vec3;

fn fx(units: i64) -> i64 {
    units * FP_ONE
}

#[test]
fn aabb_slab_straight_hit() {
    // A unit box around the origin, a ray five units out on the z axis
    // aimed straight at it: entry at parameter four.
    let bb = Aabb {
        lower: Vec3::new(-FP_ONE, -FP_ONE, -FP_ONE),
        upper: Vec3::new(FP_ONE, FP_ONE, FP_ONE),
    };
    let ray = Ray::new(Vec3::new(0, 0, fx(-5)), Vec3::new(0, 0, FP_ONE));
    let res = bb.intersect(&ray, 0, i64::MAX);
    assert_eq!(res, Some(fx(4)));
}

#[test]
fn aabb_slab_parallel_miss() {
    // The same box, but the ray runs parallel to it and past it.
    let bb = Aabb {
        lower: Vec3::new(-FP_ONE, -FP_ONE, -FP_ONE),
        upper: Vec3::new(FP_ONE, FP_ONE, FP_ONE),
    };
    let ray = Ray::new(Vec3::new(0, 0, fx(-5)), Vec3::new(FP_ONE, 0, 0));
    let res = bb.intersect(&ray, 0, i64::MAX);
    assert!(res.is_none());
}

#[test]
fn aabb_merge_null_identity() {
    let a = Aabb {
        lower: Vec3::new(fx(-3), fx(1), fx(-7)),
        upper: Vec3::new(fx(2), fx(4), fx(9)),
    };
    assert_eq!(a.merge(Aabb::null()), a);
    assert_eq!(Aabb::null().merge(a), a);
}

#[test]
fn aabb_centroid_and_extent() {
    let bb = Aabb {
        lower: Vec3::new(0, 0, 0),
        upper: Vec3::new(fx(4), fx(2), fx(1)),
    };
    assert_eq!(bb.centroid(), Vec3::new(fx(2), FP_ONE, FP_ONE / 2));
    assert_eq!(bb.max_extent(), 0);
    let d = bb.diagonal();
    assert_eq!((d.x, d.y, d.z), (fx(4), fx(2), fx(1)));
}

#[test]
fn sphere_round_trip() {
    // Ray from the origin down negative z into a unit sphere five units
    // away: nearest hit at four, outward normal along positive z.
    let sphere = Sphere {
        center: Vec3::new(0, 0, fx(-5)),
        radius: FP_ONE,
        material: 3,
    };
    let ray = Ray::new(Vec3::new(0, 0, 0), Vec3::new(0, 0, -FP_ONE));
    let res = sphere.intersect(&ray, 0, T_FAR).expect("must hit");
    assert_eq!(res.t, fx(4));
    assert_eq!(res.normal, Vec3::new(0, 0, FP_ONE));
    assert_eq!(res.material, 3);
    assert!(res.front_face);
}

#[test]
fn sphere_behind_misses() {
    let sphere = Sphere {
        center: Vec3::new(0, 0, fx(5)),
        radius: FP_ONE,
        material: 0,
    };
    // The sphere sits behind the ray, outside the forward range.
    let ray = Ray::new(Vec3::new(0, 0, 0), Vec3::new(0, 0, -FP_ONE));
    assert!(sphere.intersect(&ray, 0, T_FAR).is_none());
}

#[test]
fn triangle_through_centroid_hits() {
    let tri = Triangle {
        v0: Vec3::new(0, 0, 0),
        v1: Vec3::new(FP_ONE, 0, 0),
        v2: Vec3::new(0, FP_ONE, 0),
        normals: None,
        material: 1,
    };
    let ray = Ray::new(
        Vec3::new(FP_ONE / 4, FP_ONE / 4, fx(5)),
        Vec3::new(0, 0, -FP_ONE),
    );
    let res = tri.intersect(&ray, 0, T_FAR).expect("must hit");
    assert_eq!(res.t, fx(5));
    assert_eq!(res.material, 1);
}

#[test]
fn triangle_outside_misses() {
    let tri = Triangle {
        v0: Vec3::new(0, 0, 0),
        v1: Vec3::new(FP_ONE, 0, 0),
        v2: Vec3::new(0, FP_ONE, 0),
        normals: None,
        material: 1,
    };
    // Inside the bounding box of the triangle but outside the triangle.
    let target_x = 9 * FP_ONE / 10;
    let ray = Ray::new(
        Vec3::new(target_x, target_x, fx(5)),
        Vec3::new(0, 0, -FP_ONE),
    );
    assert!(tri.intersect(&ray, 0, T_FAR).is_none());
}

#[test]
fn triangle_backface_is_culled() {
    let tri = Triangle {
        v0: Vec3::new(0, 0, 0),
        v1: Vec3::new(FP_ONE, 0, 0),
        v2: Vec3::new(0, FP_ONE, 0),
        normals: None,
        material: 1,
    };
    // Same line as the centroid hit, approached from the other side.
    let ray = Ray::new(
        Vec3::new(FP_ONE / 4, FP_ONE / 4, fx(-5)),
        Vec3::new(0, 0, FP_ONE),
    );
    assert!(tri.intersect(&ray, 0, T_FAR).is_none());
}

#[test]
fn ray_at_walks_the_line() {
    let ray = Ray::new(Vec3::new(fx(1), fx(2), fx(3)), Vec3::new(FP_ONE, 0, -FP_ONE));
    let p = ray.at(fx(2));
    assert_eq!(p, Vec3::new(fx(3), fx(2), fx(1)));
}

#[test]
fn reflect_mirrors_about_normal() {
    // A 45-degree incoming direction bounces off the floor.
    let v = Vec3::new(FP_ONE, -FP_ONE, 0);
    let n = Vec3::new(0, FP_ONE, 0);
    let r = Vec3::reflect(v, n);
    assert_eq!(r, Vec3::new(FP_ONE, FP_ONE, 0));
}

#[test]
fn unit_scales_to_one() {
    let v = Vec3::new(fx(3), fx(4), 0);
    let u = v.unit();
    // 3-4-5 triangle: components 3/5 and 4/5 of a unit.
    assert_eq!(u.x, 3 * FP_ONE / 5);
    assert_eq!(u.y, 4 * FP_ONE / 5);
    assert_eq!(u.z, 0);
}

#[test]
fn vector_add() {
    let a = Vec3::new(fx(1), fx(2), fx(3));
    let b = Vec3::new(fx(4), fx(5), fx(6));
    assert_eq!(a.plus(b), Vec3::new(fx(5), fx(7), fx(9)));
}

#[test]
fn vector_sub() {
    let a = Vec3::new(fx(4), fx(5), fx(6));
    let b = Vec3::new(fx(1), fx(2), fx(3));
    assert_eq!(a.minus(b), Vec3::new(fx(3), fx(3), fx(3)));
}

#[test]
fn vector_neg() {
    let a = Vec3::new(fx(1), fx(-2), fx(3));
    assert_eq!(a.neg(), Vec3::new(fx(-1), fx(2), fx(-3)));
}

#[test]
fn vector_dot() {
    // (1,2,3) . (4,5,6) == 32, exact on the wide integers (scale squared).
    let a = Vec3::new(fx(1), fx(2), fx(3));
    let b = Vec3::new(fx(4), fx(5), fx(6));
    assert_eq!(a.dot_wide(&b), 32 * (FP_ONE as i128) * (FP_ONE as i128));
}

#[test]
fn vector_cross() {
    // (1,2,3) x (4,5,6) == (-3, 6, -3), exact (scale squared).
    let a = Vec3::new(fx(1), fx(2), fx(3));
    let b = Vec3::new(fx(4), fx(5), fx(6));
    let s2 = (FP_ONE as i128) * (FP_ONE as i128);
    let c = pathtracer::utils::vector::cross_wide(&a, &b);
    assert_eq!(c, (-3 * s2, 6 * s2, -3 * s2));
}

#[test]
fn vector_len() {
    // |(1,2,3)| == sqrt(14), floored on the grid; |(3,4,0)| == 5 exactly.
    let a = Vec3::new(fx(1), fx(2), fx(3));
    let expected = ((14f64).sqrt() * FP_ONE as f64) as i64;
    let got = a.len_fx();
    assert!((got - expected).abs() <= 1, "{} vs {}", got, expected);
    assert_eq!(Vec3::new(fx(3), fx(4), 0).len_fx(), fx(5));
}

