//! The procedural test scene: a ground sphere, a randomized field of
//! small spheres over a square grid, and three fixed large spheres.

use vstd::prelude::*;
use crate::fixed::{SCALE, tdiv, fmul, lemma_smul_mag};
use crate::hittable::{HittableList, scene_wf};
use crate::material::{Material, Lambertian, Metal, Dielectric};
use crate::vec3::{mag_le, cmul3, norm3, sub3};
use crate::fixed::smul;
use crate::rng::random_range;
use crate::shapes::{Sphere, sphere_wf};
use crate::vec3::{Vec3, V3};

verus! {

/// The ground: a huge diffuse sphere below the field.
pub open spec fn ground_sphere3() -> Sphere {
    Sphere {
        origin: Vec3 { x: 0, y: -1_000_000_000i64, z: 0 },
        radius: 1_000_000_000,
        material: Material::Lambertian(
            Lambertian { albedo: Vec3 { x: 500_000, y: 500_000, z: 500_000 } },
        ),
    }
}

/// The large glass sphere at the center.
pub open spec fn glass_sphere3() -> Sphere {
    Sphere {
        origin: Vec3 { x: 0, y: 1_000_000, z: 0 },
        radius: 1_000_000,
        material: Material::Dielectric(Dielectric { refraction_index: 1_500_000 }),
    }
}

/// The large diffuse sphere on the left.
pub open spec fn matte_sphere3() -> Sphere {
    Sphere {
        origin: Vec3 { x: -4_000_000i64, y: 1_000_000, z: 0 },
        radius: 1_000_000,
        material: Material::Lambertian(
            Lambertian { albedo: Vec3 { x: 400_000, y: 200_000, z: 100_000 } },
        ),
    }
}

/// The large polished metal sphere on the right.
pub open spec fn steel_sphere3() -> Sphere {
    Sphere {
        origin: Vec3 { x: 4_000_000, y: 1_000_000, z: 0 },
        radius: 1_000_000,
        material: Material::Metal(
            Metal { albedo: Vec3 { x: 700_000, y: 600_000, z: 500_000 }, fuzz: 0 },
        ),
    }
}

/// The reference point the small spheres must keep clear of.
pub open spec fn field_reference3() -> V3 {
    V3 { x: 4_000_000, y: 200_000, z: 0 }
}

/// Negative channels of a drawn color are clamped to zero: an albedo is
/// a color of the unit cube.
pub open spec fn clamp_color3(c: V3) -> V3 {
    V3 {
        x: if c.x < 0 { 0 } else { c.x },
        y: if c.y < 0 { 0 } else { c.y },
        z: if c.z < 0 { 0 } else { c.z },
    }
}

/// A diffuse field albedo: the component-wise product of two symmetric
/// unit draws, clamped into the color cube.
pub open spec fn field_albedo3(c: V3) -> bool {
    exists|d: (V3, V3)|
        #![trigger cmul3(d.0, d.1)]
        {
            &&& mag_le(d.0, SCALE as int)
            &&& mag_le(d.1, SCALE as int)
            &&& c == clamp_color3(cmul3(d.0, d.1))
        }
}

/// The center of a field sphere lies in the grid cell `(cell.0, cell.1)`,
/// jittered by the draws `(cell.2, cell.3)`.
pub open spec fn cell_form3(x: int, z: int, size: int, cell: (int, int, int, int)) -> bool {
    &&& -size <= cell.0 <= size
    &&& -size <= cell.1 <= size
    &&& -(SCALE as int) <= cell.2 < SCALE as int
    &&& -(SCALE as int) <= cell.3 < SCALE as int
    &&& x == cell.0 * (SCALE as int) + smul(900_000, cell.2)
    &&& z == cell.1 * (SCALE as int) + smul(900_000, cell.3)
}

/// A member of the randomized small-sphere field for half-extent `size`:
/// a fifth-unit sphere resting on the ground at a jittered grid cell,
/// clear of the reference point, with one of the three drawn material
/// families.
pub open spec fn field_sphere3(s: Sphere, size: int) -> bool {
    &&& s.radius == 200_000
    &&& s.origin@.y == 200_000
    &&& exists|cell: (int, int, int, int)| #[trigger] cell_form3(
        s.origin@.x,
        s.origin@.z,
        size,
        cell,
    )
    &&& norm3(sub3(s.origin@, field_reference3())) > 900_000
    &&& match s.material {
        Material::Lambertian(l) => field_albedo3(l.albedo@),
        Material::Metal(m) => {
            &&& 500_000 <= m.albedo@.x < SCALE as int
            &&& 500_000 <= m.albedo@.y < SCALE as int
            &&& 500_000 <= m.albedo@.z < SCALE as int
            &&& 0 <= m.fuzz < 500_000
        },
        Material::Dielectric(d) => d.refraction_index == 1_500_000,
    }
}

/// Builds the scene for a grid half-extent `size`: the ground sphere
/// first, then at most `(2*size+1)^2` randomized small spheres — one
/// candidate per grid cell, kept only when clear of the reference point —
/// and always the three fixed large spheres last. Whatever the random
/// draws, the scene is well formed, holds at least the four fixed
/// spheres, and at most `4 + (2*size+1)^2` in all.
pub fn random_scene(size: i64) -> (world: HittableList)
    requires
        0 <= size <= 1000,
    ensures
        scene_wf(world@),
        4 <= world@.len(),
        world@.len() <= 4 + (2 * size + 1) * (2 * size + 1),
        world@[0] == ground_sphere3(),
        world@[world@.len() - 3] == glass_sphere3(),
        world@[world@.len() - 2] == matte_sphere3(),
        world@[world@.len() - 1] == steel_sphere3(),
        forall|i: int|
            1 <= i < world@.len() - 3 ==> field_sphere3(#[trigger] world@[i], size as int),
{
    proof {
        assert((2 * size) * (2 * size) <= 4_000_000) by (nonlinear_arith)
            requires 0 <= size <= 1000i64;
        assert((2 * size) * (2 * size) >= 0) by (nonlinear_arith);
    }
    let num_spheres = (4 + (2 * size) * (2 * size)) as usize;
    let mut world = HittableList::with_capacity(num_spheres);

    let ground_material = Material::Lambertian(Lambertian::new(Vec3::from_element(500_000)));
    world.add(Sphere::new(Vec3::new(0, -1_000_000_000, 0), 1_000_000_000, ground_material));
    proof {
        assert(world@[0] == ground_sphere3());
        assert forall|i: int| 0 <= i < world@.len() implies sphere_wf(#[trigger] world@[i]) by {}
    }

    let origin_reference = Vec3::new(4_000_000, 200_000, 0);

    let mut a: i64 = -size;
    while a <= size
        invariant
            0 <= size <= 1000,
            -size <= a <= size + 1,
            scene_wf(world@),
            1 <= world@.len(),
            world@[0] == ground_sphere3(),
            world@.len() <= 1 + (a + size) * (2 * size + 1),
            origin_reference@ == (V3 { x: 4_000_000, y: 200_000, z: 0 }),
            forall|i: int|
                1 <= i < world@.len() ==> field_sphere3(#[trigger] world@[i], size as int),
        decreases size + 1 - a,
    {
        let mut b: i64 = -size;
        while b <= size
            invariant
                0 <= size <= 1000,
                -size <= a <= size,
                -size <= b <= size + 1,
                scene_wf(world@),
                1 <= world@.len(),
                world@[0] == ground_sphere3(),
                world@.len() <= 1 + (a + size) * (2 * size + 1) + (b + size),
                origin_reference@ == (V3 { x: 4_000_000, y: 200_000, z: 0 }),
                forall|i: int|
                    1 <= i < world@.len() ==> field_sphere3(#[trigger] world@[i], size as int),
            decreases size + 1 - b,
        {
            let choose_material = random_range(-SCALE, SCALE);
            let random_x = random_range(-SCALE, SCALE);
            let random_y = random_range(-SCALE, SCALE);

            proof {
                lemma_smul_mag(900_000, random_x as int, 900_000, SCALE as int);
                lemma_smul_mag(900_000, random_y as int, 900_000, SCALE as int);
                assert(tdiv(900_000int * (SCALE as int), SCALE as int) == 900_000);
                assert(-1_000_000_000 <= a * SCALE <= 1_000_000_000) by (nonlinear_arith)
                    requires -1000 <= a <= 1000i64, SCALE == 1_000_000i64;
                assert(-1_000_000_000 <= b * SCALE <= 1_000_000_000) by (nonlinear_arith)
                    requires -1000 <= b <= 1000i64, SCALE == 1_000_000i64;
            }
            let origin = Vec3::new(
                a * SCALE + fmul(900_000, random_x),
                200_000,
                b * SCALE + fmul(900_000, random_y),
            );

            if origin.sub(origin_reference).length() > 900_000 {
                let sphere_material: Material;

                if choose_material < 800_000 {
                    // Diffuse: the component-wise product of two draws.
                    let c1 = Vec3::new(
                        random_range(-SCALE, SCALE),
                        random_range(-SCALE, SCALE),
                        random_range(-SCALE, SCALE),
                    );
                    let c2 = Vec3::new(
                        random_range(-SCALE, SCALE),
                        random_range(-SCALE, SCALE),
                        random_range(-SCALE, SCALE),
                    );
                    proof {
                        lemma_smul_mag(c1@.x, c2@.x, SCALE as int, SCALE as int);
                        lemma_smul_mag(c1@.y, c2@.y, SCALE as int, SCALE as int);
                        lemma_smul_mag(c1@.z, c2@.z, SCALE as int, SCALE as int);
                        assert(tdiv((SCALE as int) * (SCALE as int), SCALE as int)
                            == SCALE as int);
                    }
                    let product = c1.component_mul(c2);
                    // An albedo is a color: negative channels clamp to
                    // zero.
                    let albedo = Vec3::new(
                        if product.x < 0 { 0 } else { product.x },
                        if product.y < 0 { 0 } else { product.y },
                        if product.z < 0 { 0 } else { product.z },
                    );
                    proof {
                        let dd = (c1@, c2@);
                        assert(cmul3(dd.0, dd.1) == cmul3(c1@, c2@));
                        assert(albedo@ == clamp_color3(cmul3(dd.0, dd.1)));
                        assert(field_albedo3(albedo@));
                    }
                    sphere_material = Material::Lambertian(Lambertian::new(albedo));
                } else if choose_material < 950_000 {
                    // Metal: a bright albedo and a mild fuzz.
                    let albedo = Vec3::new(
                        random_range(500_000, SCALE),
                        random_range(500_000, SCALE),
                        random_range(500_000, SCALE),
                    );
                    let fuzz = random_range(0, 500_000);
                    sphere_material = Material::Metal(Metal::new(albedo, fuzz));
                } else {
                    // Glass.
                    sphere_material = Material::Dielectric(Dielectric::new(1_500_000));
                }

                let ghost before = world@;
                let item = Sphere::new(origin, 200_000, sphere_material);
                world.add(item);
                proof {
                    let cell = (a as int, b as int, random_x as int, random_y as int);
                    assert(cell_form3(item.origin@.x, item.origin@.z, size as int, cell));
                    assert(field_sphere3(item, size as int));
                    assert forall|i: int| 0 <= i < world@.len() implies sphere_wf(
                        #[trigger] world@[i],
                    ) by {
                        if i < before.len() {
                            assert(world@[i] == before[i]);
                        }
                    }
                    assert forall|i: int| 1 <= i < world@.len() implies field_sphere3(
                        #[trigger] world@[i],
                        size as int,
                    ) by {
                        if i < before.len() {
                            assert(world@[i] == before[i]);
                        }
                    }
                }
            }
            b = b + 1;
        }
        proof {
            assert((a + size) * (2 * size + 1) + (2 * size + 1) == (a + 1 + size) * (2 * size + 1))
                by (nonlinear_arith);
        }
        a = a + 1;
    }

    let ghost small = world@;
    world.add(Sphere::new(Vec3::new(0, 1_000_000, 0), 1_000_000,
        Material::Dielectric(Dielectric::new(1_500_000))));
    world.add(Sphere::new(Vec3::new(-4_000_000, 1_000_000, 0), 1_000_000,
        Material::Lambertian(Lambertian::new(Vec3::new(400_000, 200_000, 100_000)))));
    world.add(Sphere::new(Vec3::new(4_000_000, 1_000_000, 0), 1_000_000,
        Material::Metal(Metal::new(Vec3::new(700_000, 600_000, 500_000), 0))));
    proof {
        assert forall|i: int| 0 <= i < world@.len() implies sphere_wf(#[trigger] world@[i]) by {
            if i < small.len() {
                assert(world@[i] == small[i]);
            }
        }
        assert forall|i: int| 1 <= i < world@.len() - 3 implies field_sphere3(
            #[trigger] world@[i],
            size as int,
        ) by {
            assert(world@[i] == small[i]);
        }
        assert(world@[world@.len() - 3] == glass_sphere3());
        assert(world@[world@.len() - 2] == matte_sphere3());
        assert(world@[world@.len() - 1] == steel_sphere3());
        assert(world@[0] == ground_sphere3());
    }
    world
}

} // verus!
