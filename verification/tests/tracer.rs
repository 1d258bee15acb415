use raytracer::camera::Camera;
use raytracer::fixed::{fdiv, fmul, fsqrt, SCALE};
use raytracer::hittable::{HitRecord, HittableList, T_EPS, T_MAX};
use raytracer::material::{vector_near_zero, Dielectric, Lambertian, Material, Metal};
use raytracer::ray::Ray;
use raytracer::ray_color;
use raytracer::render::{finalize_channel, render_pixel, ImageSettings};
use raytracer::scene::random_scene;
use raytracer::shapes::Sphere;
use raytracer::vec3::Vec3;

fn gray(level: i64) -> Material {
    Material::Lambertian(Lambertian::new(Vec3::from_element(level)))
}

#[test]
fn fixed_point_products_are_exact() {
    assert_eq!(fmul(2_500_000, 2_000_000), 5_000_000);
    assert_eq!(fmul(-2_500_000, 2_000_000), -5_000_000);
    assert_eq!(fmul(1, 1), 0);
    assert_eq!(fdiv(1_000_000, 3_000_000), 333_333);
    assert_eq!(fsqrt(4_000_000), 2_000_000);
    assert_eq!(fsqrt(2_000_000), 1_414_213);
}

#[test]
fn vector_algebra_is_exact() {
    let a = Vec3::new(1_000_000, 2_000_000, 3_000_000);
    let b = Vec3::new(4_000_000, -5_000_000, 6_000_000);
    let sum = a.add(b);
    assert_eq!((sum.x, sum.y, sum.z), (5_000_000, -3_000_000, 9_000_000));
    assert_eq!(a.dot(b), 4_000_000 - 10_000_000 + 18_000_000);
    let c = a.cross(b);
    assert_eq!((c.x, c.y, c.z), (27_000_000, 6_000_000, -13_000_000));
}

#[test]
fn normalize_produces_unit_vectors() {
    let v = Vec3::new(3_000_000, 0, 0);
    let u = v.normalize();
    assert_eq!((u.x, u.y, u.z), (1_000_000, 0, 0));

    let w = Vec3::new(1_000_000, 0, -1_000_000).normalize();
    assert_eq!((w.x, w.y, w.z), (707_107, 0, -707_107));
}

#[test]
fn ray_evaluates_points() {
    let r = Ray::new(Vec3::new(1_000_000, 2_000_000, 3_000_000), Vec3::new(1_000_000, 0, 0));
    let p = r.at(500_000);
    assert_eq!((p.x, p.y, p.z), (1_500_000, 2_000_000, 3_000_000));
}

#[test]
fn sphere_hit_point_lies_on_the_surface() {
    // A ray straight down the axis onto a half-unit sphere at the origin:
    // every value is exactly representable on the grid.
    let sphere = Sphere::new(Vec3::new(0, 0, 0), 500_000, gray(500_000));
    let ray = Ray::new(Vec3::new(0, 0, 1_000_000), Vec3::new(0, 0, -1_000_000));
    let hit = sphere.hit(&ray, T_EPS, T_MAX).expect("the ray points at the sphere");
    assert_eq!(hit.t, 500_000);
    assert_eq!((hit.point.x, hit.point.y, hit.point.z), (0, 0, 500_000));
    // |hit.point - center| equals the radius: both squares are exact.
    let offset = hit.point.sub(sphere.origin);
    assert_eq!(offset.norm_squared(), fmul(sphere.radius, sphere.radius));
    assert!(hit.front_face);
    assert_eq!((hit.normal.x, hit.normal.y, hit.normal.z), (0, 0, 1_000_000));
}

#[test]
fn sphere_normal_opposes_the_ray() {
    let sphere = Sphere::new(Vec3::new(0, 0, 0), 500_000, gray(500_000));
    // From outside.
    let outside = Ray::new(Vec3::new(0, 0, 1_000_000), Vec3::new(0, 0, -1_000_000));
    let h1 = sphere.hit(&outside, T_EPS, T_MAX).unwrap();
    assert!(outside.direction.dot(h1.normal) <= 0);
    // From the center: the ray exits through the back face.
    let inside = Ray::new(Vec3::new(0, 0, 0), Vec3::new(0, 0, -1_000_000));
    let h2 = sphere.hit(&inside, T_EPS, T_MAX).unwrap();
    assert!(!h2.front_face);
    assert!(inside.direction.dot(h2.normal) <= 0);
}

#[test]
fn sphere_miss_returns_nothing() {
    let sphere = Sphere::new(Vec3::new(0, 0, 0), 500_000, gray(500_000));
    let ray = Ray::new(Vec3::new(0, 2_000_000, 1_000_000), Vec3::new(0, 0, -1_000_000));
    assert!(sphere.hit(&ray, T_EPS, T_MAX).is_none());
}

#[test]
fn scene_reports_the_closest_hit_regardless_of_order() {
    let near = Sphere::new(Vec3::new(0, 0, 0), 500_000, gray(500_000));
    let far = Sphere::new(Vec3::new(0, 0, -4_000_000), 500_000, gray(200_000));
    let ray = Ray::new(Vec3::new(0, 0, 1_000_000), Vec3::new(0, 0, -1_000_000));

    let mut forward = HittableList::with_capacity(2);
    forward.add(near);
    forward.add(far);
    let mut backward = HittableList::with_capacity(2);
    backward.add(far);
    backward.add(near);

    let a = forward.hit(&ray, T_EPS, T_MAX).unwrap();
    let b = backward.hit(&ray, T_EPS, T_MAX).unwrap();
    assert_eq!(a.t, 500_000);
    assert_eq!(b.t, 500_000);
    assert_eq!(a.point.z, 500_000);
}

#[test]
fn empty_scene_never_hits() {
    let world = HittableList::with_capacity(0);
    let ray = Ray::new(Vec3::new(0, 0, 0), Vec3::new(1_000_000, 0, 0));
    assert!(world.hit(&ray, T_EPS, T_MAX).is_none());
}

#[test]
fn ray_color_at_zero_depth_is_black() {
    let mut world = HittableList::with_capacity(1);
    world.add(Sphere::new(Vec3::new(0, 0, 0), 500_000, gray(500_000)));
    let ray = Ray::new(Vec3::new(0, 0, 1_000_000), Vec3::new(0, 0, -1_000_000));
    let c = ray_color(&ray, &world, 0);
    assert_eq!((c.x, c.y, c.z), (0, 0, 0));
}

#[test]
fn escaped_ray_returns_the_background_gradient() {
    // A horizontal direction has unit height zero, so the blend factor is
    // exactly one half, blending to (0.75, 0.85, 1.0).
    let world = HittableList::with_capacity(0);
    let ray = Ray::new(Vec3::new(0, 0, 0), Vec3::new(1_000_000, 0, 0));
    let c = ray_color(&ray, &world, 10);
    assert_eq!((c.x, c.y, c.z), (750_000, 850_000, 1_000_000));
}

#[test]
fn background_gradient_tracks_direction_height() {
    let world = HittableList::with_capacity(0);
    // Straight up: the blend factor is one, giving pure sky blue.
    let up = Ray::new(Vec3::new(0, 0, 0), Vec3::new(0, 1_000_000, 0));
    let c = ray_color(&up, &world, 5);
    assert_eq!((c.x, c.y, c.z), (500_000, 700_000, 1_000_000));
    // Straight down: the blend factor is zero, giving white.
    let down = Ray::new(Vec3::new(0, 0, 0), Vec3::new(0, -1_000_000, 0));
    let d = ray_color(&down, &world, 5);
    assert_eq!((d.x, d.y, d.z), (1_000_000, 1_000_000, 1_000_000));
}

fn axis_hit() -> (Ray, HitRecord) {
    let sphere = Sphere::new(Vec3::new(0, 0, 0), 500_000, gray(500_000));
    let ray = Ray::new(Vec3::new(0, 0, 1_000_000), Vec3::new(0, 0, -1_000_000));
    let hit = sphere.hit(&ray, T_EPS, T_MAX).unwrap();
    (ray, hit)
}

#[test]
fn lambertian_attenuation_is_always_the_albedo() {
    let albedo = Vec3::new(100_000, 700_000, 300_000);
    let material = Lambertian::new(albedo);
    let (ray, hit) = axis_hit();
    for _ in 0..32 {
        let (scattered, attenuation) = material.scatter(&ray, &hit).expect("always scatters");
        assert_eq!((attenuation.x, attenuation.y, attenuation.z), (100_000, 700_000, 300_000));
        assert_eq!(
            (scattered.origin.x, scattered.origin.y, scattered.origin.z),
            (hit.point.x, hit.point.y, hit.point.z),
        );
        // The scattered direction always lies in the normal's hemisphere.
        assert!(scattered.direction.dot(hit.normal) >= 0);
    }
}

#[test]
fn polished_metal_mirrors_the_direction() {
    let material = Metal::new(Vec3::from_element(800_000), 0);
    let (ray, hit) = axis_hit();
    let (scattered, attenuation) = material.scatter(&ray, &hit).expect("head-on reflection");
    // Straight in, straight back out.
    let d = scattered.direction;
    assert_eq!((d.x, d.y, d.z), (0, 0, 1_000_000));
    assert_eq!(attenuation.x, 800_000);

    // An angled incoming direction mirrors about the normal exactly.
    let angled = Ray::new(Vec3::new(-1_000_000, 0, 1_500_000), Vec3::new(1_000_000, 0, -1_000_000));
    let h = Sphere::new(Vec3::new(0, 0, 0), 500_000, gray(500_000));
    let hit2 = h.hit(&angled, T_EPS, T_MAX);
    if let Some(hit2) = hit2 {
        if let Some((s2, _)) = material.scatter(&angled, &hit2) {
            // The reflected direction never points into the surface.
            assert!(s2.direction.dot(hit2.normal) > 0);
        }
    }
}

#[test]
fn metal_mirror_formula_is_exact() {
    // reflect(d - 2 (d.n) n) for d = unit(1, 0, -1), n = (0, 0, 1).
    let material = Metal::new(Vec3::from_element(900_000), 0);
    let n = Vec3::new(0, 0, 1_000_000);
    let point = Vec3::new(0, 0, 500_000);
    let ray = Ray::new(Vec3::new(-1_000_000, 0, 1_000_000), Vec3::new(1_000_000, 0, -1_000_000));
    let hit = HitRecord::new(point, &n, Material::Metal(material), 500_000, &ray);
    let (scattered, _) = material.scatter(&ray, &hit).expect("reflection leaves the surface");
    let d = scattered.direction;
    assert_eq!((d.x, d.y, d.z), (707_107, 0, 707_107));
}

#[test]
fn metal_absorbs_grazing_rays() {
    // A grazing ray reflects along the surface: the scattered direction
    // does not leave the surface and the ray is absorbed.
    let material = Metal::new(Vec3::from_element(800_000), 0);
    let n = Vec3::new(0, 0, 1_000_000);
    let point = Vec3::new(0, 0, 500_000);
    let ray = Ray::new(Vec3::new(0, 0, 0), Vec3::new(1_000_000, 0, 0));
    let hit = HitRecord::new(point, &n, Material::Metal(material), 500_000, &ray);
    assert!(material.scatter(&ray, &hit).is_none());
}

#[test]
fn metal_fuzz_is_clamped() {
    assert_eq!(Metal::new(Vec3::from_element(0), -5).fuzz, 0);
    assert_eq!(Metal::new(Vec3::from_element(0), 2_000_000).fuzz, 1_000_000);
    assert_eq!(Metal::new(Vec3::from_element(0), 300_000).fuzz, 300_000);
}

#[test]
fn dielectric_attenuation_is_always_white() {
    let material = Dielectric::new(1_500_000);
    let (ray, hit) = axis_hit();
    for _ in 0..32 {
        let (_, attenuation) = material.scatter(&ray, &hit).expect("never absorbs");
        assert_eq!((attenuation.x, attenuation.y, attenuation.z), (1_000_000, 1_000_000, 1_000_000));
    }
}

#[test]
fn reflectance_at_normal_incidence_matches_schlick() {
    // r0 = ((1 - 1.5) / (1 + 1.5))^2 = 0.04 exactly on the grid.
    assert_eq!(Dielectric::reflectance(1_000_000, 1_500_000), 40_000);
}

#[test]
fn refraction_straight_through_is_unchanged() {
    let v = Vec3::new(0, 0, -1_000_000);
    let n = Vec3::new(0, 0, 1_000_000);
    let r = raytracer::material::refract(&v, &n, 1_000_000);
    assert_eq!((r.x, r.y, r.z), (0, 0, -1_000_000));
}

#[test]
fn near_zero_detects_sub_resolution_vectors() {
    assert!(vector_near_zero(&Vec3::new(0, 0, 0)));
    assert!(vector_near_zero(&Vec3::new(2_000, 0, 0)));
    assert!(!vector_near_zero(&Vec3::new(200_000, 0, 0)));
}

#[test]
fn camera_axis_ray_points_at_the_target() {
    let camera = Camera::new(
        Vec3::new(0, 0, 1_000_000),
        Vec3::new(0, 0, 0),
        Vec3::new(0, 1_000_000, 0),
        1_000_000,
        1_000_000,
        0,
        1_000_000,
    );
    let ray = camera.get_ray(500_000, 500_000);
    assert_eq!((ray.origin.x, ray.origin.y, ray.origin.z), (0, 0, 1_000_000));
    assert_eq!((ray.direction.x, ray.direction.y, ray.direction.z), (0, 0, -1_000_000));
}

#[test]
fn image_settings_derive_the_height() {
    let image = ImageSettings::from_width(400);
    assert_eq!(image.img_width, 400);
    assert_eq!(image.img_height, 225);
    assert_eq!(image.num_pixels(), 90_000);

    let square = ImageSettings::new(64, 1_000_000);
    assert_eq!(square.img_height, 64);
}

#[test]
fn channel_quantization_applies_gamma_and_clamps() {
    // Full brightness saturates the byte.
    assert_eq!(finalize_channel(1_000_000, 1), 255);
    // A quarter of full brightness gamma-corrects to one half: 128.
    assert_eq!(finalize_channel(250_000, 1), 128);
    // 0.04 gamma-corrects to 0.2: 51.
    assert_eq!(finalize_channel(40_000, 1), 51);
    // Negative accumulations clamp to black.
    assert_eq!(finalize_channel(-5, 1), 0);
    // Averaging over samples divides first.
    assert_eq!(finalize_channel(2_000_000, 2), 255);
    assert_eq!(finalize_channel(500_000, 2), 128);
}

#[test]
fn center_pixel_sees_the_sphere_and_corners_see_the_sky() {
    let mut world = HittableList::with_capacity(1);
    world.add(Sphere::new(Vec3::new(0, 0, 0), 500_000, gray(500_000)));
    let camera = Camera::new(
        Vec3::new(0, 0, 1_000_000),
        Vec3::new(0, 0, 0),
        Vec3::new(0, 1_000_000, 0),
        1_000_000,
        1_000_000,
        0,
        1_000_000,
    );
    let image = ImageSettings::new(101, 1_000_000);
    assert_eq!(image.img_height, 101);

    // Depth one: a hit scatters once, the recursion bottoms out black, so
    // the sphere renders as exact black — never a background color, whose
    // blue channel always saturates.
    let center = render_pixel(&world, &camera, &image, 50, 50, 1, 1);
    assert_eq!(center, (0, 0, 0));

    for &(i, j) in &[(0, 0), (0, 100), (100, 0), (100, 100)] {
        let corner = render_pixel(&world, &camera, &image, i, j, 1, 1);
        assert_eq!(corner.2, 255, "background blue saturates at the corners");
        assert!(corner.0 >= 181, "background red stays in the gradient band");
    }
}

#[test]
fn random_scene_always_holds_the_fixed_spheres() {
    for &size in &[0i64, 2] {
        let world = random_scene(size);
        let n = world.items.len();
        assert!(n >= 4);
        assert!(n as i64 <= 4 + (2 * size + 1) * (2 * size + 1));

        let ground = world.items[0];
        assert_eq!((ground.origin.x, ground.origin.y, ground.origin.z), (0, -1_000_000_000, 0));
        assert_eq!(ground.radius, 1_000_000_000);
        assert_eq!(ground.material, gray(500_000));

        let glass = world.items[n - 3];
        assert_eq!((glass.origin.x, glass.origin.y, glass.origin.z), (0, 1_000_000, 0));
        assert_eq!(glass.material, Material::Dielectric(Dielectric::new(1_500_000)));

        let matte = world.items[n - 2];
        assert_eq!((matte.origin.x, matte.origin.y, matte.origin.z), (-4_000_000, 1_000_000, 0));

        let steel = world.items[n - 1];
        assert_eq!((steel.origin.x, steel.origin.y, steel.origin.z), (4_000_000, 1_000_000, 0));
        assert_eq!(steel.material, Material::Metal(Metal::new(Vec3::new(700_000, 600_000, 500_000), 0)));
    }
}

#[test]
fn dielectric_total_internal_reflection_mirrors() {
    // Leaving glass at forty-five degrees: the refraction ratio times the
    // sine exceeds one, so the boundary must reflect — deterministically,
    // whatever the Schlick draw.
    let material = Dielectric::new(1_500_000);
    let outward = Vec3::new(0, 0, -1_000_000);
    let point = Vec3::new(0, 0, 500_000);
    let ray = Ray::new(Vec3::new(-1_000_000, 0, 1_500_000), Vec3::new(1_000_000, 0, -1_000_000));
    let hit = HitRecord::new(point, &outward, Material::Dielectric(material), 500_000, &ray);
    assert!(!hit.front_face);
    for _ in 0..16 {
        let (scattered, attenuation) = material.scatter(&ray, &hit).expect("never absorbs");
        assert_eq!((attenuation.x, attenuation.y, attenuation.z), (1_000_000, 1_000_000, 1_000_000));
        let d = scattered.direction;
        assert_eq!((d.x, d.y, d.z), (707_107, 0, 707_107));
    }
}

#[test]
fn oblique_hit_point_lies_near_the_surface() {
    // An oblique ray whose intermediate values all truncate: the squared
    // offset of the hit point from the center still lands within a tight
    // tolerance of the squared radius.
    let sphere = Sphere::new(Vec3::new(0, 0, 0), 500_000, gray(500_000));
    let ray = Ray::new(Vec3::new(0, 0, 2_000_000), Vec3::new(100_000, 50_000, -1_000_000));
    let hit = sphere.hit(&ray, T_EPS, T_MAX).expect("the ray enters the sphere");
    let offset = hit.point.sub(sphere.origin);
    let nsq = offset.norm_squared();
    let rsq = fmul(sphere.radius, sphere.radius);
    assert!((nsq - rsq).abs() <= 2_000, "squared offset {nsq} vs squared radius {rsq}");
}
