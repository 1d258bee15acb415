//! Geometric primitives: the sphere.

use vstd::prelude::*;
use crate::fixed::{
    SCALE, tdiv, smul, sqrt_i,
    isqrt_u128, mul_div_scale, div_trunc,
    lemma_smul_mag, lemma_smul_self_nonneg, lemma_mul_mag, lemma_sqrt_is,
};
use crate::vec3::{Vec3, V3, mag_le, normsq3, dot3, sub3, neg3, unit3, NSQ_MIN,
    NORM_MAX, lemma_normsq3_nonneg};
use crate::ray::{Ray, ray_at3};
use crate::material::{Material, mat_wf};
use crate::hittable::{HitRecord, hit_normal_wf, T_MAX, CEN_MAX, DIR_CAP, OCAP, STEP, NSQ_CAP};

verus! {

/// A sphere: center, positive radius, and a surface material.
#[derive(Clone, Copy, PartialEq, Eq, Structural, Debug)]
pub struct Sphere {
    pub origin: Vec3,
    pub radius: i64,
    pub material: Material,
}

/// A sphere the tracer can intersect: coordinates within the scene cap,
/// radius positive and capped, material parameters in range.
pub open spec fn sphere_wf(s: Sphere) -> bool {
    &&& mag_le(s.origin@, CEN_MAX as int)
    &&& 0 < s.radius <= CEN_MAX
    &&& mat_wf(s.material)
}

/// The quadratic's leading coefficient: the squared length of the
/// direction.
pub open spec fn hit_a3(d: V3) -> int {
    normsq3(d)
}

/// Half the quadratic's linear coefficient.
pub open spec fn hit_half_b3(o: V3, cen: V3, d: V3) -> int {
    dot3(sub3(o, cen), d)
}

/// The quadratic's constant coefficient.
pub open spec fn hit_c3(o: V3, cen: V3, radius: int) -> int {
    normsq3(sub3(o, cen)) - smul(radius, radius)
}

/// The discriminant of the half-b quadratic (carried at twice the fixed
/// scale; only its sign and square root are used).
pub open spec fn hit_disc3(o: V3, cen: V3, d: V3, radius: int) -> int {
    hit_half_b3(o, cen, d) * hit_half_b3(o, cen, d) - hit_a3(d) * hit_c3(o, cen, radius)
}

/// The smaller root of the quadratic.
pub open spec fn hit_root13(o: V3, cen: V3, d: V3, radius: int) -> int {
    tdiv(
        (-hit_half_b3(o, cen, d) - sqrt_i(hit_disc3(o, cen, d, radius))) * (SCALE as int),
        hit_a3(d),
    )
}

/// The larger root of the quadratic.
pub open spec fn hit_root23(o: V3, cen: V3, d: V3, radius: int) -> int {
    tdiv(
        (-hit_half_b3(o, cen, d) + sqrt_i(hit_disc3(o, cen, d, radius))) * (SCALE as int),
        hit_a3(d),
    )
}

/// The parametric distance a sphere intersection reports: the smaller
/// root when it lies in the open interval, else the larger root when it
/// does, else nothing.
pub open spec fn sphere_hit_t3(s: Sphere, o: V3, d: V3, t_min: int, t_max: int) -> Option<int> {
    if hit_disc3(o, s.origin@, d, s.radius as int) < 0 {
        None
    } else {
        let r1 = hit_root13(o, s.origin@, d, s.radius as int);
        let r2 = hit_root23(o, s.origin@, d, s.radius as int);
        if t_min < r1 < t_max {
            Some(r1)
        } else if t_min < r2 < t_max {
            Some(r2)
        } else {
            None
        }
    }
}

/// The full intersection result: a root passes only when the contact
/// point's offset from the center is resolvable on the scalar grid —
/// neither shorter than the degeneracy threshold nor beyond the guard
/// cap. A hit outside that window is reported as a miss.
pub open spec fn sphere_hit3(s: Sphere, o: V3, d: V3, t_min: int, t_max: int) -> Option<int> {
    match sphere_hit_t3(s, o, d, t_min, t_max) {
        None => None,
        Some(t) => {
            let pc = sub3(ray_at3(o, d, t), s.origin@);
            if NSQ_MIN <= normsq3(pc) <= NSQ_CAP {
                Some(t)
            } else {
                None
            }
        },
    }
}

/// How a hit record relates to the sphere and ray that produced it: it
/// carries the sphere's material, the contact point at its parametric
/// distance, and the unit outward normal, oriented against the ray by
/// the front-face rule.
pub open spec fn is_hit_record_for(h: HitRecord, s: Sphere, o: V3, d: V3) -> bool {
    let outward = unit3(sub3(h.point@, s.origin@));
    &&& h.material == s.material
    &&& h.point@ == ray_at3(o, d, h.t as int)
    &&& h.front_face == (dot3(d, outward) < 0)
    &&& h.normal@ == (if h.front_face {
        outward
    } else {
        neg3(outward)
    })
}

impl Sphere {
    /// Geometry is a caller contract: a degenerate sphere is rejected
    /// here, by precondition, rather than detected at intersection time.
    pub fn new(origin: Vec3, radius: i64, material: Material) -> (r: Sphere)
        requires
            mag_le(origin@, CEN_MAX as int),
            0 < radius <= CEN_MAX,
            mat_wf(material),
        ensures
            r.origin == origin,
            r.radius == radius,
            r.material == material,
            sphere_wf(r),
    {
        Sphere { origin, radius, material }
    }

    /// Intersect a ray with the sphere over the open parametric interval
    /// `(t_min, t_max)`. The result is exactly `sphere_hit3`; on a hit
    /// the record satisfies `is_hit_record_for`, and the stored normal —
    /// the normalized offset from the center — opposes the incoming ray.
    ///
    /// Deliberate deviation from the real-valued model: a root in range
    /// whose contact offset from the center has a squared length outside
    /// `[NSQ_MIN, NSQ_CAP]` is reported as a miss (the guard in
    /// `sphere_hit3`), because the grid can neither orient a normal for a
    /// sub-resolution offset nor bound the arithmetic beyond the cap. For
    /// a true geometric hit the offset length is about the radius, so the
    /// guard passes for every sphere whose radius lies well inside that
    /// window; the exact condition is part of the stated contract rather
    /// than silent behavior.
    pub fn hit(&self, ray: &Ray, t_min: i64, t_max: i64) -> (r: Option<HitRecord>)
        requires
            sphere_wf(*self),
            mag_le(ray.origin@, OCAP as int),
            mag_le(ray.direction@, DIR_CAP as int),
            normsq3(ray.direction@) >= NSQ_MIN,
            0 <= t_min,
            t_max <= T_MAX,
        ensures
            match r {
                None => sphere_hit3(
                    *self,
                    ray.origin@,
                    ray.direction@,
                    t_min as int,
                    t_max as int,
                ) is None,
                Some(h) => {
                    &&& sphere_hit3(*self, ray.origin@, ray.direction@, t_min as int, t_max as int)
                        == Some(h.t as int)
                    &&& t_min < h.t < t_max
                    &&& is_hit_record_for(h, *self, ray.origin@, ray.direction@)
                    &&& hit_normal_wf(h)
                    &&& dot3(ray.direction@, h.normal@) <= 0
                    &&& NSQ_MIN <= normsq3(sub3(h.point@, self.origin@)) <= NSQ_CAP
                },
            },
    {
        let oc = ray.origin.sub(self.origin);
        proof {
            lemma_hit_coeff_bounds(ray.origin@, self.origin@, ray.direction@, self.radius as int);
        }
        let dxw = ray.direction.x as i128;
        let dyw = ray.direction.y as i128;
        let dzw = ray.direction.z as i128;
        let oxw = oc.x as i128;
        let oyw = oc.y as i128;
        let ozw = oc.z as i128;

        let a = mul_div_scale(dxw, dxw) + mul_div_scale(dyw, dyw) + mul_div_scale(dzw, dzw);
        let half_b = mul_div_scale(oxw, dxw) + mul_div_scale(oyw, dyw) + mul_div_scale(ozw, dzw);
        let c = mul_div_scale(oxw, oxw) + mul_div_scale(oyw, oyw) + mul_div_scale(ozw, ozw)
            - mul_div_scale(self.radius as i128, self.radius as i128);
        proof {
            assert(a == hit_a3(ray.direction@));
            assert(half_b == hit_half_b3(ray.origin@, self.origin@, ray.direction@));
            assert(c == hit_c3(ray.origin@, self.origin@, self.radius as int));
            assert(a >= NSQ_MIN);
            lemma_mul_mag(half_b as int, half_b as int, 8_406_000_000_000_000_000int,
                8_406_000_000_000_000_000int);
            lemma_mul_mag(a as int, c as int, 12_000_000_000_000int,
                6_000_000_000_000_000_000_000_000int);
        }
        let discriminant = half_b * half_b - a * c;

        if discriminant < 0 {
            return None;
        }

        let sq_u = isqrt_u128(discriminant as u128);
        proof {
            lemma_sqrt_is(discriminant as int, sq_u as int);
            if sq_u >= 12_000_000_000_000_000_000u128 {
                assert((sq_u as int) * (sq_u as int) >= 12_000_000_000_000_000_000int
                    * 12_000_000_000_000_000_000) by (nonlinear_arith)
                    requires sq_u >= 12_000_000_000_000_000_000u128;
            }
        }
        let sqd = sq_u as i128;

        proof {
            lemma_mul_mag((-half_b - sqd) as int, SCALE as int, 21_000_000_000_000_000_000int,
                SCALE as int);
            lemma_mul_mag((-half_b + sqd) as int, SCALE as int, 21_000_000_000_000_000_000int,
                SCALE as int);
        }
        let root1 = div_trunc((-half_b - sqd) * (SCALE as i128), a);
        let t_min_w = t_min as i128;
        let t_max_w = t_max as i128;

        let root: i128 = if t_min_w < root1 && root1 < t_max_w {
            root1
        } else {
            let root2 = div_trunc((-half_b + sqd) * (SCALE as i128), a);
            if t_min_w < root2 && root2 < t_max_w {
                root2
            } else {
                return None;
            }
        };

        let t = root as i64;
        proof {
            lemma_smul_mag(t as int, ray.direction@.x, T_MAX as int, DIR_CAP as int);
            lemma_smul_mag(t as int, ray.direction@.y, T_MAX as int, DIR_CAP as int);
            lemma_smul_mag(t as int, ray.direction@.z, T_MAX as int, DIR_CAP as int);
            assert(tdiv((T_MAX as int) * (DIR_CAP as int), SCALE as int) == STEP as int);
        }
        let point = ray.at(t);
        let pc = point.sub(self.origin);
        proof {
            lemma_mul_mag(pc@.x, pc@.x, 1_500_000_000_000_000int, 1_500_000_000_000_000int);
            lemma_mul_mag(pc@.y, pc@.y, 1_500_000_000_000_000int, 1_500_000_000_000_000int);
            lemma_mul_mag(pc@.z, pc@.z, 1_500_000_000_000_000int, 1_500_000_000_000_000int);
        }
        let pxw = pc.x as i128;
        let pyw = pc.y as i128;
        let pzw = pc.z as i128;
        let nsq = mul_div_scale(pxw, pxw) + mul_div_scale(pyw, pyw) + mul_div_scale(pzw, pzw);
        proof {
            assert(nsq == normsq3(pc@));
        }
        if nsq < (NSQ_MIN as i128) || nsq > (NSQ_CAP as i128) {
            return None;
        }

        proof {
            lemma_normsq3_nonneg(pc@);
            lemma_comp_from_nsq(pc@.x, smul(pc@.y, pc@.y) + smul(pc@.z, pc@.z), normsq3(pc@));
            lemma_comp_from_nsq(pc@.y, smul(pc@.x, pc@.x) + smul(pc@.z, pc@.z), normsq3(pc@));
            lemma_comp_from_nsq(pc@.z, smul(pc@.x, pc@.x) + smul(pc@.y, pc@.y), normsq3(pc@));
        }
        let outward_normal = pc.normalize();
        Some(HitRecord::new(point, &outward_normal, self.material, t, ray))
    }
}

/// Magnitude bounds on every term of the quadratic's coefficients, from
/// the global caps.
proof fn lemma_hit_coeff_bounds(o: V3, cen: V3, d: V3, radius: int)
    requires
        mag_le(o, OCAP as int),
        mag_le(cen, CEN_MAX as int),
        mag_le(d, DIR_CAP as int),
        0 < radius <= CEN_MAX as int,
    ensures
        mag_le(sub3(o, cen), 1_401_000_000_000_000int),
        -4_000_000_000_000 <= smul(d.x, d.x) <= 4_000_000_000_000,
        -4_000_000_000_000 <= smul(d.y, d.y) <= 4_000_000_000_000,
        -4_000_000_000_000 <= smul(d.z, d.z) <= 4_000_000_000_000,
        -2_802_000_000_000_000_000 <= smul(sub3(o, cen).x, d.x) <= 2_802_000_000_000_000_000,
        -2_802_000_000_000_000_000 <= smul(sub3(o, cen).y, d.y) <= 2_802_000_000_000_000_000,
        -2_802_000_000_000_000_000 <= smul(sub3(o, cen).z, d.z) <= 2_802_000_000_000_000_000,
        -1_963_000_000_000_000_000_000_000 <= smul(sub3(o, cen).x, sub3(o, cen).x)
            <= 1_963_000_000_000_000_000_000_000,
        -1_963_000_000_000_000_000_000_000 <= smul(sub3(o, cen).y, sub3(o, cen).y)
            <= 1_963_000_000_000_000_000_000_000,
        -1_963_000_000_000_000_000_000_000 <= smul(sub3(o, cen).z, sub3(o, cen).z)
            <= 1_963_000_000_000_000_000_000_000,
        0 <= smul(radius, radius) <= 1_000_000_000_000_000_000,
{
    let oc = sub3(o, cen);
    let ocm = 1_401_000_000_000_000int;
    lemma_smul_mag(d.x, d.x, DIR_CAP as int, DIR_CAP as int);
    lemma_smul_mag(d.y, d.y, DIR_CAP as int, DIR_CAP as int);
    lemma_smul_mag(d.z, d.z, DIR_CAP as int, DIR_CAP as int);
    assert(tdiv((DIR_CAP as int) * (DIR_CAP as int), SCALE as int) == 4_000_000_000_000int);
    lemma_smul_mag(oc.x, d.x, ocm, DIR_CAP as int);
    lemma_smul_mag(oc.y, d.y, ocm, DIR_CAP as int);
    lemma_smul_mag(oc.z, d.z, ocm, DIR_CAP as int);
    assert(tdiv(ocm * (DIR_CAP as int), SCALE as int) == 2_802_000_000_000_000_000int);
    lemma_smul_mag(oc.x, oc.x, ocm, ocm);
    lemma_smul_mag(oc.y, oc.y, ocm, ocm);
    lemma_smul_mag(oc.z, oc.z, ocm, ocm);
    assert(ocm * ocm == 1_962_801_000_000_000_000_000_000_000_000int) by (nonlinear_arith)
        requires ocm == 1_401_000_000_000_000int;
    assert(tdiv(1_962_801_000_000_000_000_000_000_000_000int, SCALE as int)
        == 1_962_801_000_000_000_000_000_000int);
    lemma_smul_mag(radius, radius, CEN_MAX as int, CEN_MAX as int);
    lemma_smul_self_nonneg(radius);
    assert((CEN_MAX as int) * (CEN_MAX as int) == 1_000_000_000_000_000_000_000_000int)
        by (nonlinear_arith)
        requires CEN_MAX == 1_000_000_000_000i64;
    assert(tdiv(1_000_000_000_000_000_000_000_000int, SCALE as int)
        == 1_000_000_000_000_000_000int);
}

/// A component bound from the squared-length guard: when the squared
/// length is at most the guard cap, each component fits the inner-product
/// bound.
proof fn lemma_comp_from_nsq(c: int, rest: int, nsq: int)
    requires
        nsq == smul(c, c) + rest,
        rest >= 0,
        0 <= nsq <= NSQ_CAP as int,
    ensures
        -(NORM_MAX as int) <= c <= NORM_MAX as int,
{
    let s = SCALE as int;
    lemma_smul_self_nonneg(c);
    assert(c * c >= 0) by (nonlinear_arith);
    vstd::arithmetic::div_mod::lemma_fundamental_div_mod(c * c, s);
    vstd::arithmetic::div_mod::lemma_remainder_upper(c * c, s);
    assert(c * c < s * (tdiv(c * c, s) + 1));
    assert(-(NORM_MAX as int) <= c <= NORM_MAX as int) by (nonlinear_arith)
        requires
            c * c < s * (tdiv(c * c, s) + 1),
            tdiv(c * c, s) <= nsq,
            nsq <= 1_000_000_000_000_000_000int,
            s == 1_000_000,
            NORM_MAX == 1_500_000_000_000i64;
}

} // verus!
