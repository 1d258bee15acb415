//! The camera: a fixed orthonormal basis and viewport, mapping normalized
//! image coordinates (with lens jitter for depth of field) to world rays.
//!
//! The construction takes the tangent of half the vertical field of view
//! directly: trigonometry lies outside the fixed-point grid, so the
//! caller evaluates it once and hands in the exact scalar.

use vstd::prelude::*;
use crate::fixed::{SCALE, tdiv, smul, fmul, lemma_smul_mag, lemma_tdiv_le};
use crate::vec3::{
    Vec3, V3, mag_le, normsq3, add3, sub3, scale3, cross3, unit3,
    NSQ_MIN, UNIT_CAP,
};
use crate::ray::Ray;
use crate::rng::{random_point_in_unit_disk, in_unit_disk};

verus! {

/// An immutable camera configuration.
pub struct Camera {
    pub origin: Vec3,
    pub lower_left_corner: Vec3,
    pub horizontal: Vec3,
    pub vertical: Vec3,
    pub u: Vec3,
    pub v: Vec3,
    pub w: Vec3,
    pub lens_radius: i64,
}

/// The field bounds a constructed camera satisfies; they keep every ray
/// the camera casts within the tracer's global caps (the direction cap
/// and the recursion's origin budget), which is what the construction's
/// parameter ranges are sized for.
pub open spec fn camera_wf(c: Camera) -> bool {
    &&& mag_le(c.origin@, 100_000_000int)
    &&& mag_le(c.u@, UNIT_CAP as int)
    &&& mag_le(c.v@, 2_100_000int)
    &&& mag_le(c.w@, UNIT_CAP as int)
    &&& mag_le(c.horizontal@, 610_000_000int)
    &&& mag_le(c.vertical@, 420_000_000int)
    &&& mag_le(c.lower_left_corner@, 670_000_000int)
    &&& 0 <= c.lens_radius <= 2_000_000
}

/// The lens offset a disk sample produces.
pub open spec fn camera_offset3(c: Camera, rd: V3) -> V3 {
    add3(
        scale3(smul(c.lens_radius as int, rd.x), c.u@),
        scale3(smul(c.lens_radius as int, rd.y), c.v@),
    )
}

/// The direction of the ray through viewport coordinates `(s, t)` from
/// the offset origin.
pub open spec fn camera_ray_dir3(c: Camera, s: int, t: int, offset: V3) -> V3 {
    sub3(
        sub3(
            add3(add3(c.lower_left_corner@, scale3(s, c.horizontal@)), scale3(t, c.vertical@)),
            c.origin@,
        ),
        offset,
    )
}

impl Camera {
    /// Builds the camera basis and viewport. `tan_half_fov` is the
    /// tangent of half the vertical field of view, as a fixed-point
    /// scalar; the remaining parameters are capped caller-validated
    /// positives, and the view and up directions must be resolvable and
    /// not parallel. The caps are the arithmetic headroom budget: they
    /// are sized so every ray the camera casts provably stays within the
    /// tracer's direction cap, with room to spare for eye positions up
    /// to a hundred units, fields of view up to about 126 degrees, and
    /// focus distances up to fifty units.
    pub fn new(
        lookfrom: Vec3,
        lookat: Vec3,
        vup: Vec3,
        tan_half_fov: i64,
        aspect_ratio: i64,
        aperture: i64,
        focus_dist: i64,
    ) -> (r: Camera)
        requires
            mag_le(lookfrom@, 100_000_000int),
            mag_le(lookat@, 100_000_000int),
            mag_le(vup@, 100_000_000int),
            normsq3(sub3(lookfrom@, lookat@)) >= NSQ_MIN,
            normsq3(cross3(vup@, unit3(sub3(lookfrom@, lookat@)))) >= NSQ_MIN,
            0 < tan_half_fov <= 2_000_000,
            100_000 <= aspect_ratio <= 3_000_000,
            0 <= aperture <= 4_000_000,
            100_000 <= focus_dist <= 50_000_000,
        ensures
            r.origin == lookfrom,
            r.w@ == unit3(sub3(lookfrom@, lookat@)),
            r.u@ == unit3(cross3(vup@, r.w@)),
            r.v@ == cross3(r.w@, r.u@),
            r.horizontal@ == scale3(
                smul(focus_dist as int, smul(aspect_ratio as int, 2 * tan_half_fov)),
                r.u@,
            ),
            r.vertical@ == scale3(smul(focus_dist as int, 2 * tan_half_fov), r.v@),
            r.lower_left_corner@ == sub3(
                sub3(
                    sub3(lookfrom@, scale3(500_000, r.horizontal@)),
                    scale3(500_000, r.vertical@),
                ),
                scale3(focus_dist as int, r.w@),
            ),
            r.lens_radius == smul(aperture as int, 500_000),
            camera_wf(r),
    {
        let viewport_height = 2 * tan_half_fov;
        proof {
            lemma_smul_mag(aspect_ratio as int, viewport_height as int, 3_000_000, 4_000_000);
            assert(tdiv(3_000_000int * 4_000_000, SCALE as int) == 12_000_000);
        }
        let viewport_width = fmul(aspect_ratio, viewport_height);

        let w = lookfrom.sub(lookat).normalize();
        let cr = vup.cross(w);
        proof {
            lemma_smul_mag(vup@.x, w@.y, 100_000_000, UNIT_CAP as int);
            lemma_smul_mag(vup@.x, w@.z, 100_000_000, UNIT_CAP as int);
            lemma_smul_mag(vup@.y, w@.x, 100_000_000, UNIT_CAP as int);
            lemma_smul_mag(vup@.y, w@.z, 100_000_000, UNIT_CAP as int);
            lemma_smul_mag(vup@.z, w@.x, 100_000_000, UNIT_CAP as int);
            lemma_smul_mag(vup@.z, w@.y, 100_000_000, UNIT_CAP as int);
            assert(tdiv(100_000_000int * (UNIT_CAP as int), SCALE as int) == 101_100_000);
        }
        let u = cr.normalize();
        proof {
            lemma_cross_unit_bound(w@, u@);
        }
        let v = w.cross(u);

        let origin = lookfrom;
        proof {
            lemma_smul_mag(focus_dist as int, viewport_width as int, 50_000_000, 12_000_000);
            assert(tdiv(50_000_000int * 12_000_000, SCALE as int) == 600_000_000);
            lemma_smul_mag(focus_dist as int, viewport_height as int, 50_000_000, 4_000_000);
            assert(tdiv(50_000_000int * 4_000_000, SCALE as int) == 200_000_000);
        }
        let hv = fmul(focus_dist, viewport_width);
        let vv = fmul(focus_dist, viewport_height);
        proof {
            lemma_smul_mag(hv as int, u@.x, 600_000_000, UNIT_CAP as int);
            lemma_smul_mag(hv as int, u@.y, 600_000_000, UNIT_CAP as int);
            lemma_smul_mag(hv as int, u@.z, 600_000_000, UNIT_CAP as int);
            assert(tdiv(600_000_000int * (UNIT_CAP as int), SCALE as int) == 606_600_000);
            lemma_smul_mag(vv as int, v@.x, 200_000_000, 2_100_000);
            lemma_smul_mag(vv as int, v@.y, 200_000_000, 2_100_000);
            lemma_smul_mag(vv as int, v@.z, 200_000_000, 2_100_000);
            assert(tdiv(200_000_000int * 2_100_000, SCALE as int) == 420_000_000);
        }
        let horizontal = u.scale(hv);
        let vertical = v.scale(vv);

        proof {
            lemma_smul_mag(500_000, horizontal@.x, 500_000, 610_000_000);
            lemma_smul_mag(500_000, horizontal@.y, 500_000, 610_000_000);
            lemma_smul_mag(500_000, horizontal@.z, 500_000, 610_000_000);
            assert(tdiv(500_000int * 610_000_000, SCALE as int) == 305_000_000);
            lemma_smul_mag(500_000, vertical@.x, 500_000, 420_000_000);
            lemma_smul_mag(500_000, vertical@.y, 500_000, 420_000_000);
            lemma_smul_mag(500_000, vertical@.z, 500_000, 420_000_000);
            assert(tdiv(500_000int * 420_000_000, SCALE as int) == 210_000_000);
            lemma_smul_mag(focus_dist as int, w@.x, 50_000_000, UNIT_CAP as int);
            lemma_smul_mag(focus_dist as int, w@.y, 50_000_000, UNIT_CAP as int);
            lemma_smul_mag(focus_dist as int, w@.z, 50_000_000, UNIT_CAP as int);
            assert(tdiv(50_000_000int * (UNIT_CAP as int), SCALE as int) == 50_550_000);
        }
        let lower_left_corner = origin.sub(horizontal.scale(500_000)).sub(
            vertical.scale(500_000),
        ).sub(w.scale(focus_dist));

        proof {
            lemma_smul_mag(aperture as int, 500_000, 4_000_000, 500_000);
            assert(tdiv(4_000_000int * 500_000, SCALE as int) == 2_000_000);
            assert((aperture as int) * 500_000 >= 0) by (nonlinear_arith)
                requires aperture >= 0i64;
            lemma_tdiv_le((aperture as int) * 500_000, SCALE as int, 2_000_000_000_000int);
        }
        let lens_radius = fmul(aperture, 500_000);

        Camera { origin, lower_left_corner, horizontal, vertical, u, v, w, lens_radius }
    }

    /// The ray through normalized viewport coordinates `(s, t)`, from the
    /// camera origin jittered by a random lens-disk offset. The contract
    /// quantifies over the disk sample; whatever is drawn, the ray stays
    /// within the tracer's origin and direction caps.
    pub fn get_ray(&self, s: i64, t: i64) -> (r: Ray)
        requires
            camera_wf(*self),
            0 <= s <= SCALE,
            0 <= t <= SCALE,
        ensures
            exists|rd: V3|
                #[trigger] in_unit_disk(rd) && r.origin@ == add3(
                    self.origin@,
                    camera_offset3(*self, rd),
                ) && r.direction@ == camera_ray_dir3(*self, s as int, t as int, camera_offset3(
                    *self,
                    rd,
                )),
            mag_le(r.origin@, 110_000_000int),
            mag_le(r.direction@, 1_900_000_000int),
    {
        let d = random_point_in_unit_disk();
        proof {
            lemma_smul_mag(self.lens_radius as int, d@.x, 2_000_000, SCALE as int);
            lemma_smul_mag(self.lens_radius as int, d@.y, 2_000_000, SCALE as int);
            assert(tdiv(2_000_000int * (SCALE as int), SCALE as int) == 2_000_000);
        }
        let rdx = fmul(self.lens_radius, d.x);
        let rdy = fmul(self.lens_radius, d.y);
        proof {
            lemma_smul_mag(rdx as int, self.u@.x, 2_000_000, UNIT_CAP as int);
            lemma_smul_mag(rdx as int, self.u@.y, 2_000_000, UNIT_CAP as int);
            lemma_smul_mag(rdx as int, self.u@.z, 2_000_000, UNIT_CAP as int);
            assert(tdiv(2_000_000int * (UNIT_CAP as int), SCALE as int) == 2_022_000);
            lemma_smul_mag(rdy as int, self.v@.x, 2_000_000, 2_100_000);
            lemma_smul_mag(rdy as int, self.v@.y, 2_000_000, 2_100_000);
            lemma_smul_mag(rdy as int, self.v@.z, 2_000_000, 2_100_000);
            assert(tdiv(2_000_000int * 2_100_000, SCALE as int) == 4_200_000);
        }
        let offset = self.u.scale(rdx).add(self.v.scale(rdy));
        let origin = self.origin.add(offset);
        proof {
            lemma_smul_mag(s as int, self.horizontal@.x, SCALE as int, 610_000_000);
            lemma_smul_mag(s as int, self.horizontal@.y, SCALE as int, 610_000_000);
            lemma_smul_mag(s as int, self.horizontal@.z, SCALE as int, 610_000_000);
            assert(tdiv((SCALE as int) * 610_000_000, SCALE as int) == 610_000_000);
            lemma_smul_mag(t as int, self.vertical@.x, SCALE as int, 420_000_000);
            lemma_smul_mag(t as int, self.vertical@.y, SCALE as int, 420_000_000);
            lemma_smul_mag(t as int, self.vertical@.z, SCALE as int, 420_000_000);
            assert(tdiv((SCALE as int) * 420_000_000, SCALE as int) == 420_000_000);
        }
        let direction = self.lower_left_corner.add(self.horizontal.scale(s)).add(
            self.vertical.scale(t),
        ).sub(self.origin).sub(offset);

        proof {
            assert(in_unit_disk(d@) && origin@ == add3(self.origin@, camera_offset3(*self, d@))
                && direction@ == camera_ray_dir3(*self, s as int, t as int, camera_offset3(
                *self,
                d@,
            )));
        }
        Ray::new(origin, direction)
    }
}

/// The cross product of two near-unit vectors stays within twice the unit
/// cap, with slack.
proof fn lemma_cross_unit_bound(a: V3, b: V3)
    requires
        mag_le(a, UNIT_CAP as int),
        mag_le(b, UNIT_CAP as int),
    ensures
        mag_le(cross3(a, b), 2_100_000int),
{
    lemma_smul_mag(a.x, b.y, UNIT_CAP as int, UNIT_CAP as int);
    lemma_smul_mag(a.x, b.z, UNIT_CAP as int, UNIT_CAP as int);
    lemma_smul_mag(a.y, b.x, UNIT_CAP as int, UNIT_CAP as int);
    lemma_smul_mag(a.y, b.z, UNIT_CAP as int, UNIT_CAP as int);
    lemma_smul_mag(a.z, b.x, UNIT_CAP as int, UNIT_CAP as int);
    lemma_smul_mag(a.z, b.y, UNIT_CAP as int, UNIT_CAP as int);
    assert(tdiv((UNIT_CAP as int) * (UNIT_CAP as int), SCALE as int) == 1_022_121);
}

} // verus!
