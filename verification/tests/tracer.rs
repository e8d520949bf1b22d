use raytrace::camera::Camera;
use raytrace::color::Color;
use raytrace::figure::{Figure, Sphere};
use raytrace::hitrecord::{FaceNormal, HitRecord};
use raytrace::material::{Dielectric, Lambertian, Material, Metal};
use raytrace::ray::Ray;
use raytrace::render::{render, render_par};
use raytrace::rng::Rng64;
use raytrace::util::{clamp, degrees_to_radians, reflectance};
use raytrace::vec::Vector;
use raytrace::world::World;

const ONE: i128 = 4294967296;
const HALF: i128 = ONE / 2;

fn v(x: i128, y: i128, z: i128) -> Vector {
    Vector::new(x, y, z)
}

fn dot(a: &Vector, b: &Vector) -> i128 {
    (a.x * b.x) / ONE + (a.y * b.y) / ONE + (a.z * b.z) / ONE
}

#[test]
fn add_sub_cancels() {
    let a = v(123456789, -987654321, 5 * ONE);
    let b = v(-42, 7 * ONE, 13);
    let r = a.add_vec(&b).sub_vec(&b);
    assert_eq!(r, a);
}

#[test]
fn scale_div_round_trip() {
    let a = v(3 * ONE, -7 * ONE, ONE / 4);
    let s: i128 = 3 * ONE / 2;
    let r = a.scale(s).scale_div(s);
    assert!((r.x - a.x).abs() <= 2);
    assert!((r.y - a.y).abs() <= 2);
    assert!((r.z - a.z).abs() <= 2);
}

#[test]
fn dot_commutes() {
    let a = v(3 * ONE, -2 * ONE, 77777);
    let b = v(-ONE, 5 * ONE, 123456);
    assert_eq!(a.dot(&b), b.dot(&a));
}

#[test]
fn unit_vector_near_unit_length() {
    let a = v(3 * ONE, 4 * ONE, 0);
    let u = a.unit_vector();
    let lsq = u.length_squared();
    assert!((lsq - ONE).abs() <= 4194304);
    assert_eq!(u.x, (3 * ONE) / 5);
    assert_eq!(u.y, (4 * ONE) / 5);
}

#[test]
fn reflect_involutive_axis_mirror() {
    let d = v(ONE, -ONE, 0);
    let n = v(0, ONE, 0);
    let r1 = d.reflect(&n);
    assert_eq!(r1, v(ONE, ONE, 0));
    let r2 = r1.reflect(&n);
    assert_eq!(r2, d);
}

#[test]
fn cross_of_axes() {
    let x = v(ONE, 0, 0);
    let y = v(0, ONE, 0);
    assert_eq!(x.cross(&y), v(0, 0, ONE));
}

#[test]
fn near_zero_threshold() {
    assert!(v(42, -42, 0).near_zero());
    assert!(!v(43, 0, 0).near_zero());
}

#[test]
fn sphere_head_on_hit() {
    let mat = Material::lambertian(Vector::new_color(HALF, HALF, HALF));
    let sph = Sphere::new(v(3 * ONE, 0, 0), ONE, mat);
    let ray = Ray::new(v(0, 0, 0), v(ONE, 0, 0));
    let hit = sph.hit(&ray, 0, 100 * ONE).expect("head-on ray must hit");
    assert!((hit.t - 2 * ONE).abs() <= 65536);
    assert!(hit.front_face);
    assert!(dot(&ray.direction, &hit.normal) <= 0);
}

#[test]
fn sphere_miss_when_closest_approach_exceeds_radius() {
    let mat = Material::lambertian(Vector::new_color(HALF, HALF, HALF));
    let sph = Sphere::new(v(3 * ONE, 2 * ONE, 0), ONE, mat);
    let ray = Ray::new(v(0, 0, 0), v(ONE, 0, 0));
    assert!(sph.hit(&ray, 0, 100 * ONE).is_none());
}

#[test]
fn sphere_hit_from_inside() {
    let mat = Material::dielectric(3 * ONE / 2);
    let sph = Sphere::new(v(0, 0, 0), ONE, mat);
    let ray = Ray::new(v(HALF, 0, 0), v(ONE, 0, 0));
    let hit = sph.hit(&ray, 0, 100 * ONE).expect("interior ray must exit");
    assert!(hit.t > 0);
    assert!((hit.t - HALF).abs() <= 65536);
    assert!(!hit.front_face);
    assert!(dot(&ray.direction, &hit.normal) <= 0);
}

#[test]
fn world_nearest_hit_wins() {
    let mat_near = Material::metal(Vector::new_color(ONE, 0, 0), 0);
    let mat_far = Material::lambertian(Vector::new_color(0, ONE, 0));
    let mut world = World::new();
    world.add(Figure::sphere(v(10 * ONE, 0, 0), ONE, mat_far.clone()));
    world.add(Figure::sphere(v(4 * ONE, 0, 0), ONE, mat_near.clone()));
    let ray = Ray::new(v(0, 0, 0), v(ONE, 0, 0));
    let hit = world.hit(&ray, 0, 1000 * ONE).expect("must hit something");
    assert!((hit.t - 3 * ONE).abs() <= 65536);
    assert!(matches!(hit.material, Material::Metal(_)));
}

#[test]
fn normal_opposes_ray_for_many_offsets() {
    let mat = Material::lambertian(Vector::new_color(HALF, HALF, HALF));
    let mut world = World::new();
    world.add(Figure::sphere(v(5 * ONE, 0, 0), 2 * ONE, mat));
    for i in 0..8 {
        let off = (i as i128 - 4) * ONE / 4;
        let ray = Ray::new(v(0, off, 0), v(ONE, 0, 0));
        if let Some(hit) = world.hit(&ray, 0, 1000 * ONE) {
            assert!(dot(&ray.direction, &hit.normal) <= 0);
            let unflipped_opposes = dot(&ray.direction, &hit.normal) < 0;
            if hit.front_face {
                assert!(unflipped_opposes);
            }
        }
    }
}

#[test]
fn face_normal_orientation() {
    let ray = Ray::new(v(0, 0, 0), v(0, 0, -ONE));
    let opposing = v(0, 0, ONE);
    match HitRecord::get_face_normal(&ray, &opposing) {
        FaceNormal::Front(n) => assert_eq!(n, opposing),
        FaceNormal::Back(_) => panic!("an opposing normal is a front face"),
    }
    let aligned = v(0, 0, -ONE);
    match HitRecord::get_face_normal(&ray, &aligned) {
        FaceNormal::Front(_) => panic!("an aligned normal is a back face"),
        FaceNormal::Back(n) => assert_eq!(n, v(0, 0, ONE)),
    }
}

#[test]
fn lambertian_never_absorbs() {
    let lam = Lambertian::new(Vector::new_color(HALF, HALF, HALF));
    let rec = HitRecord::new(
        v(0, 0, -ONE),
        v(0, 0, ONE),
        ONE,
        true,
        Material::Lambertian(lam.clone()),
    );
    let ray = Ray::new(v(0, 0, 0), v(0, 0, -ONE));
    let mut rng = Rng64::new(7);
    let (att, sc) = lam.scatter(&ray, &rec, &mut rng).expect("diffuse never absorbs");
    assert_eq!(att, Vector::new_color(HALF, HALF, HALF));
    assert_eq!(sc.origin, rec.p);
    let jitter = sc.direction.sub_vec(&rec.normal);
    assert!(jitter.length_squared() < ONE);
}

#[test]
fn metal_absorbs_grazing_reflection() {
    let met = Metal::new(Vector::new_color(ONE, ONE, ONE), 0);
    let ray = Ray::new(v(0, 0, 0), v(0, 0, -ONE));
    let inward = HitRecord::new(
        v(0, 0, -ONE),
        v(0, 0, -ONE),
        ONE,
        true,
        Material::Metal(met.clone()),
    );
    let mut rng = Rng64::new(7);
    assert!(met.scatter(&ray, &inward, &mut rng).is_none());
    let outward = HitRecord::new(
        v(0, 0, -ONE),
        v(0, 0, ONE),
        ONE,
        true,
        Material::Metal(met.clone()),
    );
    let (_, sc) = met.scatter(&ray, &outward, &mut rng).expect("mirror reflects");
    assert_eq!(sc.direction, v(0, 0, ONE));
}

#[test]
fn dielectric_refracts_straight_through() {
    let die = Dielectric::new(3 * ONE / 2);
    let ray = Ray::new(v(0, 0, 0), v(0, 0, -ONE));
    let rec = HitRecord::new(
        v(0, 0, -ONE),
        v(0, 0, ONE),
        ONE,
        true,
        Material::Dielectric(die.clone()),
    );
    let mut rng = Rng64::new(7);
    let (att, sc) = die.scatter(&ray, &rec, &mut rng).expect("dielectric never absorbs");
    assert_eq!(att, Vector::new_color(ONE, ONE, ONE));
    assert_eq!(sc.direction, v(0, 0, -ONE));
}

#[test]
fn dielectric_total_internal_reflection() {
    let die = Dielectric::new(3 * ONE / 2);
    let dir = v(ONE, -HALF, 0);
    let ray = Ray::new(v(0, 0, 0), dir);
    let rec = HitRecord::new(
        v(ONE, -HALF, 0),
        v(0, ONE, 0),
        ONE,
        false,
        Material::Dielectric(die.clone()),
    );
    let mut rng = Rng64::new(7);
    let (_, sc) = die.scatter(&ray, &rec, &mut rng).expect("dielectric never absorbs");
    let expected = dir.unit_vector().reflect(&rec.normal);
    assert_eq!(sc.direction, expected);
    assert!(sc.direction.y > 0);
}

#[test]
fn reflectance_at_normal_incidence() {
    let ri = 3 * ONE / 2;
    let r0 = ((ONE - ri) * ONE) / (ONE + ri);
    let r0sq = (r0 * r0) / ONE;
    assert_eq!(reflectance(ONE, ri), r0sq);
}

#[test]
fn clamp_orders_values() {
    assert_eq!(clamp(5, 0, 10), 5);
    assert_eq!(clamp(-5, 0, 10), 0);
    assert_eq!(clamp(15, 0, 10), 10);
}

#[test]
fn degrees_to_radians_straight_angle() {
    let r = degrees_to_radians(180 * ONE);
    assert!((r - 13493037704).abs() <= 8);
}

#[test]
fn ppm_color_extremes() {
    let c = Vector::new_color(ONE, ONE, ONE);
    assert_eq!(c.ppm_color(1), b"255 255 255".to_vec());
    let d = Vector::new_color(ONE / 4, 0, ONE);
    assert_eq!(d.ppm_color(1), b"128 0 255".to_vec());
}

#[test]
fn color_channels() {
    let c = Color::new_color(1, 2, 3);
    assert_eq!((c.r(), c.g(), c.b()), (1, 2, 3));
    assert_eq!((c.x(), c.y(), c.z()), (1, 2, 3));
    assert_eq!(c.iter(), vec![1, 2, 3]);
}

#[test]
fn rng_is_deterministic() {
    let mut a = Rng64::new(42);
    let mut b = Rng64::new(42);
    for _ in 0..16 {
        let x = a.next_unit();
        assert!(0 <= x && x < ONE);
        assert_eq!(x, b.next_unit());
    }
}

#[test]
fn rand_in_unit_sphere_stays_inside() {
    let mut rng = Rng64::new(1234);
    for _ in 0..50 {
        let p = Vector::rand_in_unit_sphere(&mut rng);
        assert!(p.length_squared() < ONE);
    }
}

#[test]
fn rand_range_stays_in_range() {
    let mut rng = Rng64::new(99);
    for _ in 0..50 {
        let p = Vector::rand_range(&mut rng, -ONE, ONE);
        assert!(-ONE <= p.x && p.x <= ONE);
        assert!(-ONE <= p.y && p.y <= ONE);
        assert!(-ONE <= p.z && p.z <= ONE);
    }
}

fn simple_camera() -> Camera {
    Camera::new(v(0, 0, 0), v(0, 0, -ONE), v(0, ONE, 0), 90 * ONE, ONE)
}

#[test]
fn camera_center_ray_points_forward() {
    let cam = simple_camera();
    let ray = cam.get_ray(HALF, HALF);
    assert_eq!(ray.origin, v(0, 0, 0));
    assert!(ray.direction.x.abs() <= 400000);
    assert!(ray.direction.y.abs() <= 400000);
    assert!((ray.direction.z + ONE).abs() <= 400000);
}

fn split_lines(bytes: &[u8]) -> Vec<String> {
    String::from_utf8(bytes.to_vec())
        .unwrap()
        .lines()
        .map(|s| s.to_string())
        .collect()
}

fn channels(line: &str) -> (i64, i64, i64) {
    let mut it = line.split(' ').map(|t| t.parse::<i64>().unwrap());
    (it.next().unwrap(), it.next().unwrap(), it.next().unwrap())
}

#[test]
fn render_empty_scene_gives_sky_gradient() {
    let world = World::new();
    let cam = simple_camera();
    let out = render(&world, &cam, 2, 3, 1, 4, 42);
    let lines = split_lines(&out);
    assert_eq!(&lines[0], "P3");
    assert_eq!(&lines[1], "2 3");
    assert_eq!(&lines[2], "255");
    assert_eq!(lines.len(), 3 + 6);
    for line in &lines[3..] {
        let (r, g, b) = channels(line);
        assert!(r >= 128 && g >= r && b >= g && b <= 255);
    }
    let (top_r, _, _) = channels(&lines[3]);
    let (bot_r, _, _) = channels(&lines[8]);
    assert!(top_r < bot_r);
}

#[test]
fn render_single_gray_sphere() {
    let mut world = World::new();
    world.add(Figure::sphere(
        v(0, 0, -ONE),
        HALF,
        Material::lambertian(Vector::new_color(HALF, HALF, HALF)),
    ));
    let cam = simple_camera();
    let out = render(&world, &cam, 2, 2, 1, 1, 42);
    let lines = split_lines(&out);
    assert_eq!(lines.len(), 3 + 4);
    for line in &lines[3..] {
        let (r, g, b) = channels(line);
        let is_absorbed_black = r == 0 && g == 0 && b == 0;
        let is_sky = r >= 128 && g >= r && b >= g;
        assert!(is_absorbed_black || is_sky);
    }
}

#[test]
fn render_twice_is_byte_identical() {
    let mut world = World::new();
    world.add(Figure::sphere(
        v(0, 0, -ONE),
        HALF,
        Material::lambertian(Vector::new_color(HALF, HALF, HALF)),
    ));
    world.add(Figure::sphere(
        v(ONE, 0, -2 * ONE),
        HALF,
        Material::metal(Vector::new_color(ONE, HALF, HALF), ONE / 8),
    ));
    let cam = simple_camera();
    let first = render(&world, &cam, 4, 4, 3, 6, 777);
    let second = render(&world, &cam, 4, 4, 3, 6, 777);
    assert_eq!(first, second);
}

#[test]
fn parallel_render_matches_sequential() {
    let mut world = World::new();
    world.add(Figure::sphere(
        v(0, 0, -ONE),
        HALF,
        Material::dielectric(3 * ONE / 2),
    ));
    let cam = simple_camera();
    let seq = render(&world, &cam, 4, 4, 2, 5, 31337);
    let par = render_par(&world, &cam, 4, 4, 2, 5, 31337);
    assert_eq!(seq, par);
}
