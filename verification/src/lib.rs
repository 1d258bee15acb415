//! A recursive, stochastic ray tracer over fixed-point scalar arithmetic.
//!
//! The crate computes a two-dimensional image by simulating light
//! transport through a scene of spheres with diffuse, reflective and
//! refractive surfaces. All geometry and color arithmetic is carried out
//! on an exact fixed-point scalar type (`fixed`), so every numeric step
//! carries a proved contract: intersection roots, scattered directions
//! and colors are pinned down exactly over the integer formulas the code
//! computes.

use vstd::prelude::*;

pub mod camera;
pub mod fixed;
pub mod hittable;
pub mod material;
pub mod ray;
pub mod render;
pub mod rng;
pub mod scene;
pub mod shapes;
pub mod vec3;

use crate::fixed::{SCALE, smul, fmul, lemma_smul_mag, lemma_tdiv_le, lemma_tdiv_quot};
use crate::hittable::{
    HittableList, scene_wf, scene_hit3, lemma_ray_at_mag, ray_wf,
    T_EPS, T_MAX, OCAP, STEP, DEPTH_MAX,
};
use crate::material::{mat_wf, scatter_rel};
use crate::ray::{Ray, ray_at3};
use crate::shapes::{Sphere, sphere_wf, is_hit_record_for};
use crate::vec3::{Vec3, V3, unit3, sub3, neg3, dot3, cmul3, normsq3, NSQ_MIN, UNIT_CAP};

verus! {

/// Exact black: zero radiance.
pub open spec fn black3() -> V3 {
    V3 { x: 0, y: 0, z: 0 }
}

/// Colors the tracer returns lie in the unit cube, up to the grid's
/// slack on the background gradient.
pub open spec fn color_ok3(c: V3) -> bool {
    &&& 0 <= c.x <= SCALE as int + 5500
    &&& 0 <= c.y <= SCALE as int + 5500
    &&& 0 <= c.z <= SCALE as int + 5500
}

/// The background sky gradient for a ray direction: a vertical blend
/// between white and sky blue by the unit direction's height.
pub open spec fn background3(d: V3) -> V3 {
    let u = unit3(d);
    let t = smul(500_000, u.y + SCALE as int);
    V3 {
        x: (SCALE as int) - t + smul(t, 500_000),
        y: (SCALE as int) - t + smul(t, 700_000),
        z: (SCALE as int) - t + smul(t, SCALE as int),
    }
}

/// The oriented normal the scan's hit record carries for sphere `s` at
/// parametric distance `t`: the unit outward offset, flipped against the
/// incoming direction by the front-face rule.
pub open spec fn hit_normal3(s: Sphere, o: V3, d: V3, t: int) -> V3 {
    let outward = unit3(sub3(ray_at3(o, d, t), s.origin@));
    if dot3(d, outward) < 0 {
        outward
    } else {
        neg3(outward)
    }
}

/// The front-face flag of that record.
pub open spec fn hit_front3(s: Sphere, o: V3, d: V3, t: int) -> bool {
    dot3(d, unit3(sub3(ray_at3(o, d, t), s.origin@))) < 0
}

/// How a traced ray relates to the color it returns: black at depth
/// exhaustion; the exact background gradient on a miss; and on a hit, an
/// outcome the hit sphere's scattering model admits, composed with a
/// color of the scattered ray one level deeper — black exactly when the
/// outcome was absorption, or a scattered direction below the grid's
/// resolution, or an all-black deeper color.
pub open spec fn ray_color_rel(items: Seq<Sphere>, o: V3, d: V3, depth: int, c: V3) -> bool
    decreases depth,
{
    if depth <= 0 {
        c == black3()
    } else if scene_hit3(items, o, d, T_EPS as int, T_MAX as int, items.len() as int) is None {
        c == background3(d)
    } else {
        let ti = scene_hit3(items, o, d, T_EPS as int, T_MAX as int, items.len() as int).unwrap();
        let s = items[ti.1];
        let p = ray_at3(o, d, ti.0);
        let n = hit_normal3(s, o, d, ti.0);
        let ff = hit_front3(s, o, d, ti.0);
        exists|out: Option<(V3, V3)>|
            scatter_rel(s.material, d, n, ff, out) && (if out is None {
                c == black3()
            } else if normsq3(out.unwrap().0) < NSQ_MIN {
                c == black3()
            } else {
                exists|c2: V3|
                    ray_color_rel(items, p, out.unwrap().0, depth - 1, c2) && c == cmul3(
                        c2,
                        out.unwrap().1,
                    )
            })
    }
}

/// The color carried back along a ray: black at depth exhaustion, the
/// background gradient on a miss, and otherwise the scattered ray's color
/// attenuated by the surface — with absorption, and any scattered
/// direction the grid cannot resolve, contributing black. The full
/// recursion is pinned by `ray_color_rel`; at depth one every hit is
/// exactly black, since the recursion bottoms out before light returns.
pub fn ray_color(ray: &Ray, world: &HittableList, recursion_depth: usize) -> (c: Vec3)
    requires
        scene_wf(world@),
        ray_wf(*ray, recursion_depth as int),
        recursion_depth <= DEPTH_MAX,
    ensures
        ray_color_rel(world@, ray.origin@, ray.direction@, recursion_depth as int, c@),
        recursion_depth == 0 ==> c@ == black3(),
        (recursion_depth > 0 && scene_hit3(
            world@,
            ray.origin@,
            ray.direction@,
            T_EPS as int,
            T_MAX as int,
            world@.len() as int,
        ) is None) ==> c@ == background3(ray.direction@),
        (recursion_depth == 1 && scene_hit3(
            world@,
            ray.origin@,
            ray.direction@,
            T_EPS as int,
            T_MAX as int,
            world@.len() as int,
        ) is Some) ==> c@ == black3(),
        color_ok3(c@),
    decreases recursion_depth,
{
    if recursion_depth == 0 {
        // Depth exhausted: no light is gathered.
        return Vec3::from_element(0);
    }

    match world.hit(ray, T_EPS, T_MAX) {
        Some(hit_record) => {
            let ghost o = ray.origin@;
            let ghost d = ray.direction@;
            let ghost items = world@;
            let ghost scan = scene_hit3(items, o, d, T_EPS as int, T_MAX as int,
                items.len() as int);
            proof {
                let i = choose|i: int|
                    0 <= i < items.len() && scene_hit3(
                        items,
                        o,
                        d,
                        T_EPS as int,
                        T_MAX as int,
                        items.len() as int,
                    ) == Some((hit_record.t as int, i)) && is_hit_record_for(
                        hit_record,
                        items[i],
                        o,
                        d,
                    );
                assert(sphere_wf(items[i]));
                assert(mat_wf(hit_record.material));
                assert(scan == Some((hit_record.t as int, i)));
                assert(hit_record.point@ == ray_at3(o, d, hit_record.t as int));
                assert(hit_record.front_face == hit_front3(items[i], o, d, hit_record.t as int));
                assert(hit_record.normal@ == hit_normal3(items[i], o, d, hit_record.t as int));
                lemma_ray_at_mag(o, d, hit_record.t as int, OCAP - recursion_depth * (
                STEP as int));
            }
            match hit_record.material.scatter(ray, &hit_record) {
                Some((scattered_ray, attenuation)) => {
                    let nsq = scattered_ray.direction.norm_squared();
                    if nsq >= NSQ_MIN {
                        let recursive = ray_color(&scattered_ray, world, recursion_depth - 1);
                        proof {
                            lemma_smul_mag(recursive@.x, attenuation@.x, SCALE as int + 5500,
                                SCALE as int);
                            lemma_smul_mag(recursive@.y, attenuation@.y, SCALE as int + 5500,
                                SCALE as int);
                            lemma_smul_mag(recursive@.z, attenuation@.z, SCALE as int + 5500,
                                SCALE as int);
                            assert(crate::fixed::tdiv((SCALE as int + 5500) * (SCALE as int),
                                SCALE as int) == SCALE as int + 5500);
                            lemma_smul_nonneg(recursive@.x, attenuation@.x);
                            lemma_smul_nonneg(recursive@.y, attenuation@.y);
                            lemma_smul_nonneg(recursive@.z, attenuation@.z);
                        }
                        let result = recursive.component_mul(attenuation);
                        proof {
                            let ti = scan.unwrap();
                            let sp = items[ti.1];
                            let p = ray_at3(o, d, ti.0);
                            let n = hit_normal3(sp, o, d, ti.0);
                            let ff = hit_front3(sp, o, d, ti.0);
                            let out = Some((scattered_ray.direction@, attenuation@));
                            assert(scatter_rel(sp.material, d, n, ff, out));
                            assert(ray_color_rel(items, p, scattered_ray.direction@,
                                recursion_depth - 1, recursive@));
                            assert(result@ == cmul3(recursive@, attenuation@));
                            assert(ray_color_rel(items, o, d, recursion_depth as int, result@));
                            if recursion_depth == 1 {
                                assert(recursive@ == black3());
                                lemma_cmul_black(attenuation@);
                            }
                        }
                        result
                    } else {
                        // The scattered direction lies below the grid's
                        // resolution: treated as absorbed.
                        proof {
                            let ti = scan.unwrap();
                            let sp = items[ti.1];
                            let n = hit_normal3(sp, o, d, ti.0);
                            let ff = hit_front3(sp, o, d, ti.0);
                            let out = Some((scattered_ray.direction@, attenuation@));
                            assert(scatter_rel(sp.material, d, n, ff, out));
                            assert(ray_color_rel(items, o, d, recursion_depth as int, black3()));
                        }
                        Vec3::from_element(0)
                    }
                },
                None => {
                    // Absorption: an expected zero-radiance outcome.
                    proof {
                        let ti = scan.unwrap();
                        let sp = items[ti.1];
                        let n = hit_normal3(sp, o, d, ti.0);
                        let ff = hit_front3(sp, o, d, ti.0);
                        let out = Option::<(V3, V3)>::None;
                        assert(scatter_rel(sp.material, d, n, ff, out));
                        assert(ray_color_rel(items, o, d, recursion_depth as int, black3()));
                    }
                    Vec3::from_element(0)
                },
            }
        },
        None => {
            // Ray escaped: blend the background gradient.
            let unit_direction = ray.direction.normalize();
            proof {
                lemma_smul_mag(500_000, unit_direction@.y + SCALE as int, 500_000, 3_000_000);
                assert(crate::fixed::tdiv(500_000int * 3_000_000, SCALE as int) == 1_500_000);
            }
            let t = fmul(500_000, unit_direction.y + SCALE);
            proof {
                lemma_smul_mag(t as int, 500_000, 1_500_000, 500_000);
                lemma_smul_mag(t as int, 700_000, 1_500_000, 700_000);
                lemma_smul_mag(t as int, SCALE as int, 1_500_000, SCALE as int);
                assert(crate::fixed::tdiv(1_500_000int * 1_000_000, SCALE as int) == 1_500_000);
                lemma_background_ok(ray.direction@);
            }
            Vec3::new(
                (SCALE - t) + fmul(t, 500_000),
                (SCALE - t) + fmul(t, 700_000),
                (SCALE - t) + fmul(t, SCALE),
            )
        },
    }
}

/// The fixed-point product of nonnegative scalars is nonnegative.
proof fn lemma_smul_nonneg(a: int, b: int)
    requires
        a >= 0,
        b >= 0,
    ensures
        smul(a, b) >= 0,
{
    assert(a * b >= 0) by (nonlinear_arith)
        requires a >= 0, b >= 0;
    vstd::arithmetic::div_mod::lemma_div_pos_is_pos(a * b, SCALE as int);
}

/// Multiplying black by any attenuation stays black.
proof fn lemma_cmul_black(att: V3)
    ensures
        cmul3(black3(), att) == black3(),
{
    assert(0int * att.x == 0) by (nonlinear_arith);
    assert(0int * att.y == 0) by (nonlinear_arith);
    assert(0int * att.z == 0) by (nonlinear_arith);
    assert(0int / (SCALE as int) == 0);
}

/// One fixed-point scalar divides out of its own product.
proof fn lemma_smul_scale_id(t: int)
    ensures
        smul(t, SCALE as int) == t,
{
    let s = SCALE as int;
    if t >= 0 {
        vstd::arithmetic::div_mod::lemma_div_by_multiple(t, s);
        assert(t * s == s * t) by (nonlinear_arith);
    } else {
        vstd::arithmetic::div_mod::lemma_div_by_multiple(-t, s);
        assert((-t) * s == s * (-t)) by (nonlinear_arith);
        assert(-(t * s) == (-t) * s) by (nonlinear_arith);
    }
}

/// The background gradient stays in the unit cube up to the grid's
/// slack, and its blue channel is exactly one.
proof fn lemma_background_ok(d: V3)
    requires
        crate::vec3::mag_le(unit3(d), UNIT_CAP as int),
    ensures
        0 <= background3(d).x <= SCALE as int + 5500,
        0 <= background3(d).y <= SCALE as int + 5500,
        background3(d).z == SCALE as int,
{
    let s = SCALE as int;
    let v = unit3(d).y + s;
    let t = smul(500_000, v);
    // t bounds: v lies in [-11_000, 2_011_000].
    lemma_smul_mag(500_000, v, 500_000, 2_011_000);
    assert(crate::fixed::tdiv(500_000int * 2_011_000, s) == 1_005_500);
    if v < 0 {
        lemma_smul_mag(500_000, v, 500_000, 11_000);
        assert(crate::fixed::tdiv(500_000int * 11_000, s) == 5500);
    } else {
        assert(500_000 * v >= 0) by (nonlinear_arith)
            requires v >= 0;
        lemma_tdiv_le(500_000 * v, s, 1_005_500_000_000int);
    }
    assert(-5500 <= t <= 1_005_500);
    // Blue: smul(t, s) == t exactly.
    lemma_smul_scale_id(t);
    // Red and green, upper bounds.
    if t >= 0 {
        // smul(t, k) <= t for k <= s.
        assert(t * 500_000 <= s * t && t * 500_000 >= 0) by (nonlinear_arith)
            requires t >= 0, s == 1_000_000;
        lemma_tdiv_quot(t * 500_000, s, t);
        assert(t * 700_000 <= s * t && t * 700_000 >= 0) by (nonlinear_arith)
            requires t >= 0, s == 1_000_000;
        lemma_tdiv_quot(t * 700_000, s, t);
    } else {
        lemma_smul_mag(t, 500_000, 5500, 500_000);
        assert(crate::fixed::tdiv(5500int * 500_000, s) == 2750);
        lemma_smul_mag(t, 700_000, 5500, 700_000);
        assert(crate::fixed::tdiv(5500int * 700_000, s) == 3850);
    }
    // Lower bounds via the fundamental division identity.
    lemma_bg_channel_low(t, 500_000);
    lemma_bg_channel_low(t, 700_000);
}

/// For a blend factor within the grid's range, `1 - t + t*k` stays
/// nonnegative for a channel weight `k` of at least one half.
proof fn lemma_bg_channel_low(t: int, k: int)
    requires
        -5500 <= t <= 1_005_500,
        500_000 <= k <= 1_000_000,
    ensures
        (SCALE as int) - t + smul(t, k) >= 0,
{
    let s = SCALE as int;
    if t <= 0 {
        // smul(t, k) >= -|t| and -t >= |t|.
        lemma_smul_mag(t, k, 5500, 1_000_000);
        assert(crate::fixed::tdiv(5500int * 1_000_000, s) == 5500);
    } else {
        // s * smul(t, k) == t*k - r with 0 <= r < s, so
        // s * (s - t + smul(t, k)) >= s^2 - s*t + t*k - s + 1 > 0.
        assert(t * k >= 0) by (nonlinear_arith)
            requires t >= 0, k >= 0;
        vstd::arithmetic::div_mod::lemma_fundamental_div_mod(t * k, s);
        vstd::arithmetic::div_mod::lemma_remainder_upper(t * k, s);
        vstd::arithmetic::div_mod::lemma_remainder_lower(t * k, s);
        let q = (t * k) / s;
        assert(smul(t, k) == q);
        assert(s - t + q >= 0) by (nonlinear_arith)
            requires
                s == 1_000_000,
                0 < t <= 1_005_500,
                500_000 <= k <= 1_000_000,
                s * q > t * k - s,
                t * k >= s * q;
    }
}

} // verus!
