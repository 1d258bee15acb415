use raytracer::fixed::SCALE;
use raytracer::rng::{
    random_point_in_hemisphere, random_point_in_unit_disk, random_point_in_unit_sphere,
    random_unit_vector,
};
use raytracer::vec3::{Vec3, NSQ_MIN};

#[test]
fn unit_sphere_samples_lie_in_the_ball() {
    for _ in 0..200 {
        let p = random_point_in_unit_sphere();
        let nsq = p.norm_squared();
        assert!(nsq >= NSQ_MIN);
        assert!(nsq < SCALE);
        assert!(p.x.abs() <= SCALE && p.y.abs() <= SCALE && p.z.abs() <= SCALE);
    }
}

#[test]
fn unit_vectors_have_unit_length() {
    for _ in 0..200 {
        let u = random_unit_vector();
        let nsq = u.norm_squared();
        assert!(nsq >= 990_000, "squared length {nsq} too small");
        assert!(nsq <= 1_010_000, "squared length {nsq} too large");
    }
}

#[test]
fn hemisphere_samples_face_the_normal() {
    let normal = Vec3::new(0, 1_000_000, 0);
    for _ in 0..200 {
        let p = random_point_in_hemisphere(&normal);
        assert!(p.dot(normal) >= 0);
    }
}

#[test]
fn disk_samples_are_flat_and_inside() {
    for _ in 0..200 {
        let p = random_point_in_unit_disk();
        assert_eq!(p.z, 0);
        assert!(p.norm_squared() < SCALE);
    }
}
