use pathtracer::materials::dielectric::Dielectric;
use pathtracer::materials::diffuse_light::DiffuseLight;
use pathtracer::materials::lambertian::Lambertian;
use pathtracer::materials::metal::Metal;
use pathtracer::materials::Material;
use pathtracer::objects::bvh::BvhNode;
use pathtracer::objects::sphere::Sphere;
use pathtracer::objects::triangle::Triangle;
use pathtracer::objects::world::World;
use pathtracer::objects::Object;
use pathtracer::ray_color;
use pathtracer::utils::color::Color;
use pathtracer::utils::ray::Ray;
use pathtracer::utils::vector::Vec3;
use pathtracer::{FP_ONE, T_FAR, T_MIN};
use rand::Rng;

fn fx(units: i64) -> i64 {
    units * FP_ONE
}

fn build(primitives: Vec<Object>) -> (Vec<Object>, Vec<BvhNode>, usize) {
    let mut objects: Vec<Object> = Vec::new();
    let mut nodes: Vec<BvhNode> = Vec::new();
    let root = BvhNode::construct(primitives, &mut objects, &mut nodes);
    (objects, nodes, root)
}

fn sphere_at(x: i64, y: i64, z: i64, r: i64, mat: usize) -> Object {
    Object::Sphere(Sphere {
        center: Vec3::new(x, y, z),
        radius: r,
        material: mat,
    })
}

#[test]
fn bvh_finds_nearest_of_two() {
    let prims = vec![
        sphere_at(0, 0, fx(-5), FP_ONE, 0),
        sphere_at(0, 0, fx(-10), FP_ONE, 1),
    ];
    let (objects, nodes, root) = build(prims);
    let ray = Ray::new(Vec3::new(0, 0, 0), Vec3::new(0, 0, -FP_ONE));
    let hit = BvhNode::intersect(root, &ray, T_MIN, T_FAR, &objects, &nodes).expect("must hit");
    assert_eq!(hit.t, fx(4));
    assert_eq!(hit.material, 0);
}

#[test]
fn bvh_matches_linear_scan_on_random_scenes() {
    // The core correctness invariant: for random primitive sets and rays,
    // traversal reports the same nearest parameter as a brute-force scan.
    let mut rng = rand::thread_rng();
    for _scene in 0..20 {
        let n: usize = rng.gen_range(1..40);
        let mut prims: Vec<Object> = Vec::new();
        for i in 0..n {
            if i % 3 == 2 {
                let base = Vec3::new(
                    rng.gen_range(-fx(20)..fx(20)),
                    rng.gen_range(-fx(20)..fx(20)),
                    rng.gen_range(-fx(20)..fx(20)),
                );
                prims.push(Object::Triangle(Triangle {
                    v0: base,
                    v1: Vec3::new(
                        base.x + rng.gen_range(FP_ONE..fx(4)),
                        base.y,
                        base.z + rng.gen_range(-fx(2)..fx(2)),
                    ),
                    v2: Vec3::new(
                        base.x,
                        base.y + rng.gen_range(FP_ONE..fx(4)),
                        base.z + rng.gen_range(-fx(2)..fx(2)),
                    ),
                    normals: None,
                    material: i,
                }));
            } else {
                prims.push(sphere_at(
                    rng.gen_range(-fx(20)..fx(20)),
                    rng.gen_range(-fx(20)..fx(20)),
                    rng.gen_range(-fx(20)..fx(20)),
                    rng.gen_range(FP_ONE / 4..fx(3)),
                    i,
                ));
            }
        }
        let (objects, nodes, root) = build(prims);
        let mut world = World::new();
        for o in objects.iter() {
            world.add(o.clone());
        }
        for _shot in 0..200 {
            let ray = Ray::new(
                Vec3::new(
                    rng.gen_range(-fx(25)..fx(25)),
                    rng.gen_range(-fx(25)..fx(25)),
                    rng.gen_range(-fx(25)..fx(25)),
                ),
                Vec3::new(
                    rng.gen_range(-fx(2)..fx(2)),
                    rng.gen_range(-fx(2)..fx(2)),
                    rng.gen_range(-fx(2)..fx(2)),
                ),
            );
            let from_bvh = BvhNode::intersect(root, &ray, T_MIN, T_FAR, &objects, &nodes);
            let from_scan = world.intersect(&ray, T_MIN, T_FAR);
            match (from_bvh, from_scan) {
                (None, None) => {}
                (Some(b), Some(s)) => {
                    assert_eq!(b.t, s.t);
                    assert_eq!(b.material, s.material);
                }
                (b, s) => panic!("hierarchy {:?} disagrees with scan {:?}", b, s),
            }
        }
    }
}

#[test]
fn bvh_construction_is_deterministic() {
    // Building twice from the same ordered list yields the same arena,
    // box for box.
    let mut prims1: Vec<Object> = Vec::new();
    let mut prims2: Vec<Object> = Vec::new();
    let mut rng = rand::thread_rng();
    for i in 0..25usize {
        let x = rng.gen_range(-fx(10)..fx(10));
        let y = rng.gen_range(-fx(10)..fx(10));
        let z = rng.gen_range(-fx(10)..fx(10));
        let r = rng.gen_range(FP_ONE / 2..fx(2));
        prims1.push(sphere_at(x, y, z, r, i));
        prims2.push(sphere_at(x, y, z, r, i));
    }
    let (_, nodes1, root1) = build(prims1);
    let (_, nodes2, root2) = build(prims2);
    assert_eq!(root1, root2);
    assert_eq!(nodes1.len(), nodes2.len());
    for (a, b) in nodes1.iter().zip(nodes2.iter()) {
        assert_eq!(a, b);
    }
}

#[test]
fn bvh_empty_scene_misses() {
    let (objects, nodes, root) = build(Vec::new());
    let ray = Ray::new(Vec3::new(0, 0, 0), Vec3::new(0, 0, -FP_ONE));
    assert!(BvhNode::intersect(root, &ray, T_MIN, T_FAR, &objects, &nodes).is_none());
}

#[test]
fn ray_color_depth_zero_is_black() {
    let (objects, nodes, root) = build(vec![sphere_at(0, 0, fx(-5), FP_ONE, 0)]);
    let materials = vec![DiffuseLight::white(fx(4))];
    let ray = Ray::new(Vec3::new(0, 0, 0), Vec3::new(0, 0, -FP_ONE));
    let c = ray_color(root, &objects, &materials, &nodes, ray, 0);
    assert_eq!(c, Vec3::new(0, 0, 0));
}

#[test]
fn ray_color_sees_a_light() {
    let (objects, nodes, root) = build(vec![sphere_at(0, 0, fx(-5), FP_ONE, 0)]);
    let materials = vec![DiffuseLight::white(fx(4))];
    let ray = Ray::new(Vec3::new(0, 0, 0), Vec3::new(0, 0, -FP_ONE));
    let c = ray_color(root, &objects, &materials, &nodes, ray, 8);
    assert_eq!(c, Vec3::new(fx(4), fx(4), fx(4)));
}

#[test]
fn ray_color_background_off_scene() {
    let (objects, nodes, root) = build(vec![sphere_at(0, 0, fx(-5), FP_ONE, 0)]);
    let materials = vec![Lambertian::grey()];
    let ray = Ray::new(Vec3::new(0, 0, 0), Vec3::new(0, 0, FP_ONE));
    let c = ray_color(root, &objects, &materials, &nodes, ray, 8);
    assert_eq!(c, Vec3::new(66, 66, 66));
}

fn sample_hit() -> pathtracer::behaviors::intersect::IntersectResult {
    let sphere = Sphere {
        center: Vec3::new(0, 0, fx(-5)),
        radius: FP_ONE,
        material: 0,
    };
    let ray = Ray::new(Vec3::new(0, 0, 0), Vec3::new(0, 0, -FP_ONE));
    sphere.intersect(&ray, 0, T_FAR).expect("must hit")
}

#[test]
fn lambertian_attenuation_in_unit_range() {
    let m = Lambertian::new(Color::rgb(200, 90, 30));
    let hit = sample_hit();
    let ray = Ray::new(Vec3::new(0, 0, 0), Vec3::new(0, 0, -FP_ONE));
    for _ in 0..50 {
        let s = m.scatter(&ray, hit).expect("diffuse always scatters");
        for ch in [s.attenuation.x, s.attenuation.y, s.attenuation.z] {
            assert!((0..=FP_ONE).contains(&ch));
        }
    }
}

#[test]
fn metal_attenuation_in_unit_range() {
    let m = Metal::new(Color::rgb(250, 250, 250), FP_ONE / 10);
    let hit = sample_hit();
    let ray = Ray::new(Vec3::new(0, 0, 0), Vec3::new(0, 0, -FP_ONE));
    for _ in 0..50 {
        if let Some(s) = m.scatter(&ray, hit) {
            for ch in [s.attenuation.x, s.attenuation.y, s.attenuation.z] {
                assert!((0..=FP_ONE).contains(&ch));
            }
        }
    }
}

#[test]
fn dielectric_attenuation_is_white() {
    let m = Dielectric::new(3 * FP_ONE / 2);
    let hit = sample_hit();
    let ray = Ray::new(Vec3::new(0, 0, 0), Vec3::new(0, 0, -FP_ONE));
    for _ in 0..50 {
        let s = m.scatter(&ray, hit).expect("dielectric always scatters");
        assert_eq!(s.attenuation, Vec3::new(FP_ONE, FP_ONE, FP_ONE));
    }
}

#[test]
fn light_never_scatters() {
    let m = DiffuseLight::white(fx(8));
    let hit = sample_hit();
    let ray = Ray::new(Vec3::new(0, 0, 0), Vec3::new(0, 0, -FP_ONE));
    assert!(m.scatter(&ray, hit).is_none());
    if let Material::DiffuseLight(dl) = m {
        assert_eq!(dl.emit(), Vec3::new(fx(8), fx(8), fx(8)));
    } else {
        panic!("white builds a light");
    }
}

#[test]
fn world_bounding_box_covers_everything() {
    let mut world = World::new();
    world.add(sphere_at(0, 0, fx(-5), FP_ONE, 0));
    world.add(sphere_at(fx(3), fx(2), fx(1), 2 * FP_ONE, 1));
    let bb = world.bounding_box();
    assert_eq!(bb.lower, Vec3::new(-FP_ONE, -FP_ONE, fx(-6)));
    assert_eq!(bb.upper, Vec3::new(fx(5), fx(4), fx(3)));
}

#[test]
fn world_scan_finds_nearest() {
    let mut world = World::new();
    world.add(sphere_at(0, 0, fx(-10), FP_ONE, 7));
    world.add(sphere_at(0, 0, fx(-5), FP_ONE, 4));
    let ray = Ray::new(Vec3::new(0, 0, 0), Vec3::new(0, 0, -FP_ONE));
    let hit = world.intersect(&ray, T_MIN, T_FAR).expect("must hit");
    assert_eq!(hit.t, fx(4));
    assert_eq!(hit.material, 4);
}
