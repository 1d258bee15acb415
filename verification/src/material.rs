//! Surface materials: diffuse, reflective with fuzz, and refractive.
//!
//! Each material scatters an incoming ray at a hit point into an outgoing
//! ray and a color attenuation, or absorbs it. The scattered direction of
//! each variant is pinned down exactly over the fixed-point formulas;
//! where a random sample enters, the contract quantifies over the sample.

use vstd::prelude::*;
use crate::fixed::{
    SCALE, tdiv, smul, sdiv, ssqrt,
    fmul, fdiv, fsqrt,
    lemma_tdiv_le, lemma_tdiv_quot, lemma_tdiv_lower, lemma_smul_mag, lemma_smul_self_nonneg,
};
use crate::vec3::{
    Vec3, V3, mag_le, normsq3, dot3, add3, neg3, scale3, unit3,
    reflect3, lemma_dot3_mag,
    NSQ_MIN, NORM_MAX, UNIT_CAP,
};
use crate::ray::Ray;
use crate::rng::{random_unit_vector, random_point_in_unit_sphere, random_range, in_unit_sphere};
use crate::hittable::{HitRecord, hit_normal_wf, DIR_CAP};

verus! {

/// Cap on the components of any scattered direction: two hundred units.
pub const SCATTER_CAP: i64 = 200_000_000;

/// Smallest accepted refraction index: a tenth.
pub const RI_MIN: i64 = 100_000;

/// Largest accepted refraction index: ten.
pub const RI_MAX: i64 = 10_000_000;

/// An attenuation color: every channel within zero and one.
pub open spec fn attenuation_wf(c: V3) -> bool {
    &&& 0 <= c.x <= SCALE as int
    &&& 0 <= c.y <= SCALE as int
    &&& 0 <= c.z <= SCALE as int
}

/// Clamping a scalar into the unit interval around zero.
pub open spec fn clamp_unit(c: int) -> int {
    if c > SCALE as int {
        SCALE as int
    } else if c < -(SCALE as int) {
        -(SCALE as int)
    } else {
        c
    }
}

/// The cosine a dielectric boundary sees: the clamped inner product of
/// the reversed unit direction with the stored normal.
pub open spec fn dielectric_cos3(u: V3, n: V3) -> int {
    clamp_unit(dot3(neg3(u), n))
}

/// The matching sine, from the unit identity.
pub open spec fn dielectric_sin3(cos: int) -> int {
    ssqrt((SCALE as int) - smul(cos, cos))
}

/// Schlick's approximation of the Fresnel reflectance.
pub open spec fn schlick3(cosine: int, ref_idx: int) -> int {
    let r0a = sdiv((SCALE as int) - ref_idx, (SCALE as int) + ref_idx);
    let r0 = smul(r0a, r0a);
    let omc = (SCALE as int) - cosine;
    let p2 = smul(omc, omc);
    let p4 = smul(p2, p2);
    let p5 = smul(p4, omc);
    r0 + smul((SCALE as int) - r0, p5)
}

/// Snell refraction of the unit direction `v` at normal `n`, decomposed
/// into perpendicular and parallel parts.
pub open spec fn refract3(v: V3, n: V3, ratio: int) -> V3 {
    let cos = clamp_unit(dot3(neg3(v), n));
    let perp = scale3(ratio, add3(v, scale3(cos, n)));
    let k = (SCALE as int) - normsq3(perp);
    let ka = if k >= 0 {
        k
    } else {
        -k
    };
    add3(perp, scale3(-ssqrt(ka), n))
}

/// The refraction ratio a boundary applies: the reciprocal of the index
/// when entering the medium, the index itself when leaving.
pub open spec fn dielectric_ratio3(front_face: bool, ri: int) -> int {
    if front_face {
        sdiv(SCALE as int, ri)
    } else {
        ri
    }
}

/// Whether the scattered direction lies below the grid's resolution.
pub fn vector_near_zero(vector: &Vec3) -> (r: bool)
    requires
        mag_le(vector@, NORM_MAX as int),
    ensures
        r == (normsq3(vector@) < NSQ_MIN),
{
    vector.norm_squared() < NSQ_MIN
}

/// Mirror reflection of `vector` about `normal`.
pub fn reflect(vector: &Vec3, normal: &Vec3) -> (r: Vec3)
    requires
        mag_le(vector@, 2_000_000int),
        mag_le(normal@, 2_000_000int),
    ensures
        r@ == reflect3(vector@, normal@),
        mag_le(r@, 50_000_000int),
{
    proof {
        lemma_dot3_mag(vector@, normal@, 2_000_000, 2_000_000);
        assert(tdiv(2_000_000int * 2_000_000, SCALE as int) == 4_000_000);
        lemma_smul_mag(2 * dot3(vector@, normal@), normal@.x, 24_000_000, 2_000_000);
        lemma_smul_mag(2 * dot3(vector@, normal@), normal@.y, 24_000_000, 2_000_000);
        lemma_smul_mag(2 * dot3(vector@, normal@), normal@.z, 24_000_000, 2_000_000);
        assert(tdiv(24_000_000int * 2_000_000, SCALE as int) == 48_000_000);
    }
    let d = vector.dot(*normal);
    let scaled = normal.scale(2 * d);
    vector.sub(scaled)
}

/// A diffuse surface: scatters into the normal's hemisphere, attenuating
/// by its albedo.
#[derive(Clone, Copy, PartialEq, Eq, Structural, Debug)]
pub struct Lambertian {
    pub albedo: Vec3,
}

impl Lambertian {
    pub fn new(albedo: Vec3) -> (r: Lambertian)
        ensures
            r.albedo == albedo,
    {
        Lambertian { albedo }
    }

    /// Scatter off the hit point: the normal plus a random unit vector,
    /// falling back to the normal itself when the sum degenerates — when
    /// it lies below the grid's resolution, or when truncation pushed it
    /// below the hemisphere of the normal (impossible over the reals, a
    /// grid artifact here). Always scatters into the normal's hemisphere;
    /// the attenuation is the configured albedo, whatever the incoming
    /// ray.
    pub fn scatter(&self, _input_ray: &Ray, hit_record: &HitRecord) -> (r: Option<(Ray, Vec3)>)
        requires
            hit_normal_wf(*hit_record),
        ensures
            r is Some,
            r.unwrap().1 == self.albedo,
            r.unwrap().0.origin == hit_record.point,
            mag_le(r.unwrap().0.direction@, SCATTER_CAP as int),
            normsq3(r.unwrap().0.direction@) >= NSQ_MIN,
            dot3(r.unwrap().0.direction@, hit_record.normal@) >= 0,
            exists|u: V3|
                mag_le(u, UNIT_CAP as int) && normsq3(u) >= NSQ_MIN
                    && r.unwrap().0.direction@ == #[trigger] lambertian_dir3(hit_record.normal@, u),
    {
        let u = random_unit_vector();
        let mut scatter_direction = hit_record.normal.add(u);

        if vector_near_zero(&scatter_direction)
            || scatter_direction.dot(hit_record.normal) < 0 {
            scatter_direction = hit_record.normal;
        }

        proof {
            assert(scatter_direction@ == lambertian_dir3(hit_record.normal@, u@));
        }
        let scattered_ray = Ray::new(hit_record.point, scatter_direction);
        Some((scattered_ray, self.albedo))
    }
}

/// The direction a diffuse scatter takes for the unit sample `u`: the
/// normal plus the sample, or the normal alone when that sum degenerates
/// on the grid.
pub open spec fn lambertian_dir3(n: V3, u: V3) -> V3 {
    if normsq3(add3(n, u)) < NSQ_MIN || dot3(add3(n, u), n) < 0 {
        n
    } else {
        add3(n, u)
    }
}

/// A reflective surface with a fuzz perturbation.
#[derive(Clone, Copy, PartialEq, Eq, Structural, Debug)]
pub struct Metal {
    pub albedo: Vec3,
    pub fuzz: i64,
}

impl Metal {
    /// The fuzz factor is clamped into the unit interval.
    pub fn new(albedo: Vec3, fuzz: i64) -> (r: Metal)
        ensures
            r.albedo == albedo,
            r.fuzz == (if fuzz < 0 {
                0int
            } else if fuzz > SCALE {
                SCALE as int
            } else {
                fuzz as int
            }),
            0 <= r.fuzz <= SCALE,
    {
        let f = if fuzz < 0 {
            0
        } else if fuzz > SCALE {
            SCALE
        } else {
            fuzz
        };
        Metal { albedo, fuzz: f }
    }

    /// Scatter by mirror reflection of the unit incoming direction,
    /// perturbed by `fuzz` times a unit-ball sample; the ray is absorbed
    /// when the result points into the surface. With zero fuzz the
    /// scattered direction is exactly the mirror reflection.
    pub fn scatter(&self, input_ray: &Ray, hit_record: &HitRecord) -> (r: Option<(Ray, Vec3)>)
        requires
            hit_normal_wf(*hit_record),
            mag_le(input_ray.direction@, DIR_CAP as int),
            normsq3(input_ray.direction@) >= NSQ_MIN,
            0 <= self.fuzz <= SCALE,
        ensures
            r is Some ==> {
                &&& r.unwrap().1 == self.albedo
                &&& r.unwrap().0.origin == hit_record.point
                &&& mag_le(r.unwrap().0.direction@, SCATTER_CAP as int)
                &&& dot3(r.unwrap().0.direction@, hit_record.normal@) > 0
                &&& exists|q: V3|
                    #[trigger] in_unit_sphere(q) && r.unwrap().0.direction@ == add3(
                        reflect3(unit3(input_ray.direction@), hit_record.normal@),
                        scale3(self.fuzz as int, q),
                    )
            },
            self.fuzz == 0 ==> (r is Some <==> dot3(
                reflect3(unit3(input_ray.direction@), hit_record.normal@),
                hit_record.normal@,
            ) > 0),
            (self.fuzz == 0 && r is Some) ==> r.unwrap().0.direction@ == reflect3(
                unit3(input_ray.direction@),
                hit_record.normal@,
            ),
            r is None ==> exists|q: V3|
                #[trigger] in_unit_sphere(q) && dot3(
                    add3(
                        reflect3(unit3(input_ray.direction@), hit_record.normal@),
                        scale3(self.fuzz as int, q),
                    ),
                    hit_record.normal@,
                ) <= 0,
    {
        let unit = input_ray.direction.normalize();
        let reflected = reflect(&unit, &hit_record.normal);
        let q = random_point_in_unit_sphere();
        proof {
            lemma_smul_mag(self.fuzz as int, q@.x, SCALE as int, SCALE as int);
            lemma_smul_mag(self.fuzz as int, q@.y, SCALE as int, SCALE as int);
            lemma_smul_mag(self.fuzz as int, q@.z, SCALE as int, SCALE as int);
            assert(tdiv((SCALE as int) * (SCALE as int), SCALE as int) == SCALE as int);
        }
        let perturbation = q.scale(self.fuzz);
        let direction = reflected.add(perturbation);
        proof {
            if self.fuzz == 0 {
                assert(0int * q@.x == 0) by (nonlinear_arith);
                assert(0int * q@.y == 0) by (nonlinear_arith);
                assert(0int * q@.z == 0) by (nonlinear_arith);
                assert(tdiv(0int, SCALE as int) == 0int / (SCALE as int));
                assert(direction@ == reflect3(unit3(input_ray.direction@), hit_record.normal@));
            }
        }
        let scattered_ray = Ray::new(hit_record.point, direction);

        if scattered_ray.direction.dot(hit_record.normal) > 0 {
            Some((scattered_ray, self.albedo))
        } else {
            None
        }
    }
}

/// A refractive surface.
#[derive(Clone, Copy, PartialEq, Eq, Structural, Debug)]
pub struct Dielectric {
    pub refraction_index: i64,
}

/// Snell refraction of the unit direction `vector` about `normal`.
pub fn refract(vector: &Vec3, normal: &Vec3, refraction_ratio: i64) -> (r: Vec3)
    requires
        mag_le(vector@, 2_000_000int),
        mag_le(normal@, 2_000_000int),
        1 <= refraction_ratio <= RI_MAX,
    ensures
        r@ == refract3(vector@, normal@, refraction_ratio as int),
        mag_le(r@, SCATTER_CAP as int),
{
    proof {
        lemma_dot3_mag(vector@, normal@, 2_000_000, 2_000_000);
        assert(tdiv(2_000_000int * 2_000_000, SCALE as int) == 4_000_000);
    }
    let nv = vector.neg();
    let d = nv.dot(*normal);
    let cos_theta = if d > SCALE {
        SCALE
    } else if d < -SCALE {
        -SCALE
    } else {
        d
    };
    proof {
        lemma_smul_mag(cos_theta as int, normal@.x, SCALE as int, 2_000_000);
        lemma_smul_mag(cos_theta as int, normal@.y, SCALE as int, 2_000_000);
        lemma_smul_mag(cos_theta as int, normal@.z, SCALE as int, 2_000_000);
        assert(tdiv((SCALE as int) * 2_000_000, SCALE as int) == 2_000_000);
    }
    let cn = normal.scale(cos_theta);
    let vpcn = vector.add(cn);
    proof {
        lemma_smul_mag(refraction_ratio as int, vpcn@.x, RI_MAX as int, 4_000_000);
        lemma_smul_mag(refraction_ratio as int, vpcn@.y, RI_MAX as int, 4_000_000);
        lemma_smul_mag(refraction_ratio as int, vpcn@.z, RI_MAX as int, 4_000_000);
        assert(tdiv((RI_MAX as int) * 4_000_000, SCALE as int) == 40_000_000);
    }
    let r_out_perpendicular = vpcn.scale(refraction_ratio);
    let nsq_perp = r_out_perpendicular.norm_squared();
    proof {
        lemma_dot3_mag(r_out_perpendicular@, r_out_perpendicular@, 40_000_000, 40_000_000);
        assert(tdiv(40_000_000int * 40_000_000, SCALE as int) == 1_600_000_000);
    }
    let k = SCALE - nsq_perp;
    let ka = if k < 0 {
        -k
    } else {
        k
    };
    let s = fsqrt(ka);
    proof {
        // s * s <= ka * SCALE <= 4.801e15 < (70_000_000 + 1)^2.
        if s > 70_000_000 {
            assert((s as int) * (s as int) > 70_000_000int * 70_000_000) by (nonlinear_arith)
                requires s > 70_000_000i64;
        }
        lemma_smul_mag(-(s as int), normal@.x, 70_000_000, 2_000_000);
        lemma_smul_mag(-(s as int), normal@.y, 70_000_000, 2_000_000);
        lemma_smul_mag(-(s as int), normal@.z, 70_000_000, 2_000_000);
        assert(tdiv(70_000_000int * 2_000_000, SCALE as int) == 140_000_000);
    }
    let r_out_parallel = normal.scale(-s);
    r_out_perpendicular.add(r_out_parallel)
}

impl Dielectric {
    pub fn new(refraction_index: i64) -> (r: Dielectric)
        requires
            RI_MIN <= refraction_index <= RI_MAX,
        ensures
            r.refraction_index == refraction_index,
    {
        Dielectric { refraction_index }
    }

    /// Schlick's approximation of the Fresnel reflectance.
    pub fn reflectance(cosine: i64, ref_idx: i64) -> (r: i64)
        requires
            -4_000_000 <= cosine <= SCALE,
            RI_MIN <= ref_idx <= RI_MAX,
        ensures
            r == schlick3(cosine as int, ref_idx as int),
    {
        proof {
            lemma_tdiv_le(((SCALE - ref_idx) as int) * (SCALE as int), (SCALE + ref_idx) as int,
                9_000_000_000_000int);
            lemma_tdiv_quot(((SCALE - ref_idx) as int) * (SCALE as int), (SCALE + ref_idx) as int,
                9_000_000int);
            assert(-(((SCALE + ref_idx) as int) * 9_000_000) <= ((SCALE - ref_idx) as int) * (
            SCALE as int) <= ((SCALE + ref_idx) as int) * 9_000_000) by (nonlinear_arith)
                requires RI_MIN <= ref_idx <= RI_MAX, SCALE == 1_000_000i64, RI_MIN == 100_000i64,
                    RI_MAX == 10_000_000i64;
        }
        let r0a = fdiv(SCALE - ref_idx, SCALE + ref_idx);
        proof {
            lemma_smul_mag(r0a as int, r0a as int, 9_000_000, 9_000_000);
            assert(tdiv(9_000_000int * 9_000_000, SCALE as int) == 81_000_000);
            lemma_smul_self_nonneg(r0a as int);
        }
        let r0 = fmul(r0a, r0a);
        let omc = SCALE - cosine;
        proof {
            lemma_smul_mag(omc as int, omc as int, 5_000_000, 5_000_000);
            assert(tdiv(5_000_000int * 5_000_000, SCALE as int) == 25_000_000);
        }
        let p2 = fmul(omc, omc);
        proof {
            lemma_smul_mag(p2 as int, p2 as int, 25_000_000, 25_000_000);
            assert(tdiv(25_000_000int * 25_000_000, SCALE as int) == 625_000_000);
        }
        let p4 = fmul(p2, p2);
        proof {
            lemma_smul_mag(p4 as int, omc as int, 625_000_000, 5_000_000);
            assert(tdiv(625_000_000int * 5_000_000, SCALE as int) == 3_125_000_000);
        }
        let p5 = fmul(p4, omc);
        proof {
            lemma_smul_mag((SCALE - r0) as int, p5 as int, 81_000_000, 3_125_000_000);
        }
        r0 + fmul(SCALE - r0, p5)
    }

    /// Scatter at a refractive boundary: reflect on total internal
    /// reflection or a favorable Schlick draw, refract otherwise. The
    /// attenuation is always exactly white: the material absorbs nothing.
    pub fn scatter(&self, input_ray: &Ray, hit_record: &HitRecord) -> (r: Option<(Ray, Vec3)>)
        requires
            hit_normal_wf(*hit_record),
            mag_le(input_ray.direction@, DIR_CAP as int),
            normsq3(input_ray.direction@) >= NSQ_MIN,
            RI_MIN <= self.refraction_index <= RI_MAX,
        ensures
            r is Some,
            r.unwrap().1@ == (V3 { x: SCALE as int, y: SCALE as int, z: SCALE as int }),
            r.unwrap().0.origin == hit_record.point,
            mag_le(r.unwrap().0.direction@, SCATTER_CAP as int),
            r.unwrap().0.direction@ == reflect3(unit3(input_ray.direction@), hit_record.normal@)
                || r.unwrap().0.direction@ == refract3(
                unit3(input_ray.direction@),
                hit_record.normal@,
                dielectric_ratio3(hit_record.front_face, self.refraction_index as int),
            ),
            smul(
                dielectric_ratio3(hit_record.front_face, self.refraction_index as int),
                dielectric_sin3(
                    dielectric_cos3(unit3(input_ray.direction@), hit_record.normal@),
                ),
            ) > SCALE ==> r.unwrap().0.direction@ == reflect3(
                unit3(input_ray.direction@),
                hit_record.normal@,
            ),
    {
        proof {
            lemma_tdiv_quot((SCALE as int) * (SCALE as int), self.refraction_index as int,
                RI_MAX as int);
            lemma_tdiv_lower((SCALE as int) * (SCALE as int), self.refraction_index as int,
                RI_MIN as int);
            assert((self.refraction_index as int) * (RI_MAX as int) >= (SCALE as int) * (
            SCALE as int)) by (nonlinear_arith)
                requires self.refraction_index >= 100_000i64, RI_MAX == 10_000_000i64,
                    SCALE == 1_000_000i64;
            assert((self.refraction_index as int) * (RI_MIN as int) <= (SCALE as int) * (
            SCALE as int)) by (nonlinear_arith)
                requires self.refraction_index <= 10_000_000i64, RI_MIN == 100_000i64,
                    SCALE == 1_000_000i64;
        }
        let refraction_ratio = if hit_record.front_face {
            fdiv(SCALE, self.refraction_index)
        } else {
            self.refraction_index
        };

        let unit_direction = input_ray.direction.normalize();
        let nu = unit_direction.neg();
        proof {
            lemma_dot3_mag(nu@, hit_record.normal@, UNIT_CAP as int, UNIT_CAP as int);
            assert(tdiv((UNIT_CAP as int) * (UNIT_CAP as int), SCALE as int) == 1_022_121);
        }
        let d = nu.dot(hit_record.normal);
        let cos_theta = if d > SCALE {
            SCALE
        } else if d < -SCALE {
            -SCALE
        } else {
            d
        };
        proof {
            lemma_smul_mag(cos_theta as int, cos_theta as int, SCALE as int, SCALE as int);
            assert(tdiv((SCALE as int) * (SCALE as int), SCALE as int) == SCALE as int);
            lemma_smul_self_nonneg(cos_theta as int);
        }
        let c2 = fmul(cos_theta, cos_theta);
        let s2 = SCALE - c2;
        let sin_theta = fsqrt(s2);
        proof {
            // sin^2 <= s2 * SCALE <= SCALE^2 < (SCALE + 1)^2.
            if sin_theta > SCALE {
                assert((sin_theta as int) * (sin_theta as int) > (SCALE as int) * (SCALE as int))
                    by (nonlinear_arith)
                    requires sin_theta > SCALE, SCALE == 1_000_000i64;
            }
            lemma_smul_mag(refraction_ratio as int, sin_theta as int, RI_MAX as int, SCALE as int);
        }
        let rs = fmul(refraction_ratio, sin_theta);
        let cannot_refract = rs > SCALE;
        let has_reflectance = Dielectric::reflectance(cos_theta, refraction_ratio) > random_range(
            0,
            SCALE,
        );

        let scatter_direction = if cannot_refract || has_reflectance {
            reflect(&unit_direction, &hit_record.normal)
        } else {
            refract(&unit_direction, &hit_record.normal, refraction_ratio)
        };

        let scattered_ray = Ray::new(hit_record.point, scatter_direction);
        let attenuation = Vec3::from_element(SCALE);

        Some((scattered_ray, attenuation))
    }
}

/// A surface material: one of the three scattering models.
#[derive(Clone, Copy, PartialEq, Eq, Structural, Debug)]
pub enum Material {
    Lambertian(Lambertian),
    Metal(Metal),
    Dielectric(Dielectric),
}

/// The view of a scatter outcome: the scattered direction and the
/// attenuation, or absorption.
pub open spec fn scatter_view(r: Option<(Ray, Vec3)>) -> Option<(V3, V3)> {
    match r {
        None => None,
        Some(p) => Some((p.0.direction@, p.1@)),
    }
}

/// Every outcome a material's scattering model admits for the incoming
/// direction `d`, the stored normal `n` and the front-face flag `ff`:
/// what holds of the scattered direction and attenuation whatever the
/// random draws were, including when the ray is absorbed.
pub open spec fn scatter_rel(m: Material, d: V3, n: V3, ff: bool, out: Option<(V3, V3)>) -> bool {
    match m {
        Material::Lambertian(l) => match out {
            Some(p) => p.1 == l.albedo@ && exists|u: V3|
                mag_le(u, UNIT_CAP as int) && normsq3(u) >= NSQ_MIN && p.0
                    == #[trigger] lambertian_dir3(n, u),
            None => false,
        },
        Material::Metal(mt) => match out {
            Some(p) => p.1 == mt.albedo@ && dot3(p.0, n) > 0 && exists|q: V3|
                #[trigger] in_unit_sphere(q) && p.0 == add3(
                    reflect3(unit3(d), n),
                    scale3(mt.fuzz as int, q),
                ),
            None => exists|q: V3|
                #[trigger] in_unit_sphere(q) && dot3(
                    add3(reflect3(unit3(d), n), scale3(mt.fuzz as int, q)),
                    n,
                ) <= 0,
        },
        Material::Dielectric(dl) => match out {
            Some(p) => p.1 == (V3 { x: SCALE as int, y: SCALE as int, z: SCALE as int }) && (p.0
                == reflect3(unit3(d), n) || p.0 == refract3(
                unit3(d),
                n,
                dielectric_ratio3(ff, dl.refraction_index as int),
            )),
            None => false,
        },
    }
}

/// A material whose parameters lie in the ranges the scattering models
/// accept.
pub open spec fn mat_wf(m: Material) -> bool {
    match m {
        Material::Lambertian(l) => attenuation_wf(l.albedo@),
        Material::Metal(metal) => attenuation_wf(metal.albedo@) && 0 <= metal.fuzz <= SCALE as int,
        Material::Dielectric(d) => RI_MIN as int <= d.refraction_index <= RI_MAX as int,
    }
}

impl Material {
    /// Scatter the incoming ray at the hit point by this material's
    /// model. Every scattered ray starts at the hit point with a capped,
    /// exactly characterized direction; a diffuse surface always scatters
    /// with its albedo as attenuation, a refractive one always scatters
    /// with white attenuation, a reflective one absorbs rays scattered
    /// into the surface.
    pub fn scatter(&self, input_ray: &Ray, hit_record: &HitRecord) -> (r: Option<(Ray, Vec3)>)
        requires
            mat_wf(*self),
            hit_normal_wf(*hit_record),
            mag_le(input_ray.direction@, DIR_CAP as int),
            normsq3(input_ray.direction@) >= NSQ_MIN,
        ensures
            r is Some ==> {
                &&& r.unwrap().0.origin == hit_record.point
                &&& mag_le(r.unwrap().0.direction@, SCATTER_CAP as int)
                &&& attenuation_wf(r.unwrap().1@)
            },
            self matches Material::Lambertian(l) ==> r is Some && r.unwrap().1 == l.albedo
                && normsq3(r.unwrap().0.direction@) >= NSQ_MIN,
            self matches Material::Dielectric(_) ==> r is Some && r.unwrap().1@ == (V3 {
                x: SCALE as int,
                y: SCALE as int,
                z: SCALE as int,
            }),
            self matches Material::Metal(m) && r is Some ==> dot3(
                r.unwrap().0.direction@,
                hit_record.normal@,
            ) > 0,
            self matches Material::Metal(m) && m.fuzz == 0 && r is Some ==> r.unwrap().0.direction@
                == reflect3(unit3(input_ray.direction@), hit_record.normal@),
            self matches Material::Metal(m) && m.fuzz == 0 ==> (r is Some <==> dot3(
                reflect3(unit3(input_ray.direction@), hit_record.normal@),
                hit_record.normal@,
            ) > 0),
            scatter_rel(
                *self,
                input_ray.direction@,
                hit_record.normal@,
                hit_record.front_face,
                scatter_view(r),
            ),
    {
        match self {
            Material::Lambertian(l) => l.scatter(input_ray, hit_record),
            Material::Metal(m) => m.scatter(input_ray, hit_record),
            Material::Dielectric(d) => d.scatter(input_ray, hit_record),
        }
    }
}

} // verus!
