//! Hit records and the scene aggregate.
//!
//! This module also fixes the global caps of the geometric model: the
//! bounds on scene coordinates, ray directions and parametric distances
//! under which every arithmetic step of the tracer provably stays in
//! range.

use vstd::prelude::*;
use crate::fixed::smul;
use crate::material::Material;
use crate::ray::Ray;
use crate::vec3::{Vec3, V3, mag_le, normsq3, neg3, sub3, dot3, lemma_dot3_neg, lemma_normsq3_neg,
    NSQ_MIN, UNIT_CAP};
use crate::shapes::{Sphere, sphere_wf};

verus! {

/// Lower parametric bound used by the tracer: skipping a thousandth of a
/// unit avoids re-hitting the surface a scattered ray starts on.
pub const T_EPS: i64 = 1_000;

/// Upper parametric bound standing in for infinity: ten thousand units,
/// far beyond any scene the coordinate cap admits.
pub const T_MAX: i64 = 10_000_000_000;

/// Cap on scene coordinates: sphere centers and radii stay within a
/// million units.
pub const CEN_MAX: i64 = 1_000_000_000_000;

/// Cap on the components of a traced ray's direction: two thousand units.
pub const DIR_CAP: i64 = 2_000_000_000;

/// Cap on the components of a traced ray's origin at recursion depth
/// zero; each remaining level of depth reserves one `STEP` of headroom.
pub const OCAP: i64 = 1_400_000_000_000_000;

/// How far a single bounce can move a ray origin: the travel cap
/// `T_MAX * DIR_CAP / SCALE`.
pub const STEP: i64 = 20_000_000_000_000;

/// Largest supported recursion depth.
pub const DEPTH_MAX: usize = 64;

/// Guard on the squared distance from a hit point to the sphere center:
/// hits outside this range cannot be resolved on the scalar grid and are
/// reported as misses.
pub const NSQ_CAP: i64 = 1_000_000_000_000_000_000;

/// A ray the tracer can follow at the given remaining depth: direction
/// components capped and resolvable, origin within the depth's budget.
pub open spec fn ray_wf(r: Ray, depth: int) -> bool {
    &&& mag_le(r.direction@, DIR_CAP as int)
    &&& normsq3(r.direction@) >= NSQ_MIN
    &&& mag_le(r.origin@, OCAP - depth * (STEP as int))
}

/// The record of a ray-surface intersection.
#[derive(Clone, Copy, PartialEq, Eq, Structural, Debug)]
pub struct HitRecord {
    pub point: Vec3,
    pub normal: Vec3,
    pub material: Material,
    pub t: i64,
    pub front_face: bool,
}

/// A hit record's normal is a resolvable near-unit vector.
pub open spec fn hit_normal_wf(h: HitRecord) -> bool {
    &&& mag_le(h.normal@, UNIT_CAP as int)
    &&& normsq3(h.normal@) >= NSQ_MIN
}

impl HitRecord {
    /// Builds a record, orienting the stored normal against the incoming
    /// ray: the outward normal is kept when the ray arrives from outside
    /// (`front_face`) and flipped otherwise, so the stored normal never
    /// points along the ray.
    pub fn new(point: Vec3, outward_normal: &Vec3, material: Material, t: i64, ray: &Ray) -> (r:
        HitRecord)
        requires
            mag_le(outward_normal@, UNIT_CAP as int),
            normsq3(outward_normal@) >= NSQ_MIN,
            mag_le(ray.direction@, DIR_CAP as int),
        ensures
            r.front_face == (dot3(ray.direction@, outward_normal@) < 0),
            r.normal@ == (if r.front_face {
                outward_normal@
            } else {
                neg3(outward_normal@)
            }),
            r.point == point,
            r.material == material,
            r.t == t,
            dot3(ray.direction@, r.normal@) <= 0,
            hit_normal_wf(r),
    {
        let front_face = ray.direction.dot(*outward_normal) < 0;

        let normal = if front_face {
            *outward_normal
        } else {
            proof {
                lemma_dot3_neg(ray.direction@, outward_normal@);
                lemma_normsq3_neg(outward_normal@);
            }
            outward_normal.neg()
        };

        HitRecord { point, normal, material, t, front_face }
    }
}

/// The scene: an ordered collection of spheres, scanned linearly for the
/// nearest hit.
pub struct HittableList {
    pub items: Vec<Sphere>,
}

impl View for HittableList {
    type V = Seq<Sphere>;

    open spec fn view(&self) -> Seq<Sphere> {
        self.items@
    }
}

/// Every sphere of the scene is well formed.
pub open spec fn scene_wf(items: Seq<Sphere>) -> bool {
    forall|i: int| 0 <= i < items.len() ==> sphere_wf(#[trigger] items[i])
}

/// The nearest hit among the first `n` spheres, with the index of the
/// sphere that produced it: a linear scan under a shrinking upper bound,
/// so an exact tie keeps the earlier sphere.
pub open spec fn scene_hit3(
    items: Seq<Sphere>,
    o: V3,
    d: V3,
    t_min: int,
    t_max: int,
    n: int,
) -> Option<(int, int)>
    decreases n,
{
    if n <= 0 {
        None
    } else {
        let prev = scene_hit3(items, o, d, t_min, t_max, n - 1);
        let bound = match prev {
            Some(p) => p.0,
            None => t_max,
        };
        match crate::shapes::sphere_hit3(items[n - 1], o, d, t_min, bound) {
            Some(t) => Some((t, n - 1)),
            None => prev,
        }
    }
}

/// The scan misses exactly when every sphere, tested against the full
/// interval, misses.
pub proof fn lemma_scene_miss(items: Seq<Sphere>, o: V3, d: V3, t_min: int, t_max: int, n: int)
    requires
        n <= items.len(),
    ensures
        scene_hit3(items, o, d, t_min, t_max, n) is None <==> (forall|i: int|
            0 <= i < n ==> crate::shapes::sphere_hit3(#[trigger] items[i], o, d, t_min, t_max)
                is None),
    decreases n,
{
    if n > 0 {
        lemma_scene_miss(items, o, d, t_min, t_max, n - 1);
    }
}

/// The point a ray reaches within the travel caps stays within one
/// `STEP` of its origin's bound.
pub proof fn lemma_ray_at_mag(o: V3, d: V3, t: int, m: int)
    requires
        mag_le(o, m),
        mag_le(d, DIR_CAP as int),
        0 <= t <= T_MAX as int,
    ensures
        mag_le(crate::ray::ray_at3(o, d, t), m + STEP as int),
{
    crate::fixed::lemma_smul_mag(t, d.x, T_MAX as int, DIR_CAP as int);
    crate::fixed::lemma_smul_mag(t, d.y, T_MAX as int, DIR_CAP as int);
    crate::fixed::lemma_smul_mag(t, d.z, T_MAX as int, DIR_CAP as int);
    assert(crate::fixed::tdiv((T_MAX as int) * (DIR_CAP as int), crate::fixed::SCALE as int)
        == STEP as int);
}

impl HittableList {
    pub fn with_capacity(capacity: usize) -> (r: HittableList)
        ensures
            r@ == Seq::<Sphere>::empty(),
    {
        HittableList { items: Vec::with_capacity(capacity) }
    }

    pub fn add(&mut self, item: Sphere)
        ensures
            final(self)@ == old(self)@.push(item),
    {
        self.items.push(item);
    }

    /// The nearest intersection among the scene's spheres over the open
    /// interval `(t_min, t_max)`: a linear scan maintaining a shrinking
    /// upper bound, exactly `scene_hit3` over the whole scene.
    pub fn hit(&self, ray: &Ray, t_min: i64, t_max: i64) -> (r: Option<HitRecord>)
        requires
            scene_wf(self@),
            mag_le(ray.origin@, OCAP as int),
            mag_le(ray.direction@, DIR_CAP as int),
            normsq3(ray.direction@) >= NSQ_MIN,
            0 <= t_min,
            t_max <= T_MAX,
        ensures
            match r {
                None => scene_hit3(
                    self@,
                    ray.origin@,
                    ray.direction@,
                    t_min as int,
                    t_max as int,
                    self@.len() as int,
                ) is None,
                Some(h) => {
                    &&& t_min < h.t < t_max
                    &&& exists|i: int|
                        0 <= i < self@.len() && scene_hit3(
                            self@,
                            ray.origin@,
                            ray.direction@,
                            t_min as int,
                            t_max as int,
                            self@.len() as int,
                        ) == Some((h.t as int, i)) && crate::shapes::is_hit_record_for(
                            h,
                            #[trigger] self@[i],
                            ray.origin@,
                            ray.direction@,
                        ) && NSQ_MIN <= normsq3(sub3(h.point@, self@[i].origin@)) <= NSQ_CAP
                    &&& hit_normal_wf(h)
                    &&& dot3(ray.direction@, h.normal@) <= 0
                },
            },
    {
        let mut result: Option<HitRecord> = None;
        let mut closest_so_far = t_max;
        let n = self.items.len();
        let mut idx: usize = 0;

        while idx < n
            invariant
                n == self@.len(),
                idx <= n,
                scene_wf(self@),
                mag_le(ray.origin@, OCAP as int),
                mag_le(ray.direction@, DIR_CAP as int),
                normsq3(ray.direction@) >= NSQ_MIN,
                0 <= t_min,
                t_max <= T_MAX,
                match result {
                    None => closest_so_far == t_max && scene_hit3(
                        self@,
                        ray.origin@,
                        ray.direction@,
                        t_min as int,
                        t_max as int,
                        idx as int,
                    ) is None,
                    Some(h) => {
                        &&& closest_so_far == h.t
                        &&& t_min < h.t < t_max
                        &&& exists|i: int|
                            0 <= i < idx && scene_hit3(
                                self@,
                                ray.origin@,
                                ray.direction@,
                                t_min as int,
                                t_max as int,
                                idx as int,
                            ) == Some((h.t as int, i)) && crate::shapes::is_hit_record_for(
                                h,
                                #[trigger] self@[i],
                                ray.origin@,
                                ray.direction@,
                            ) && NSQ_MIN <= normsq3(sub3(h.point@, self@[i].origin@)) <= NSQ_CAP
                        &&& hit_normal_wf(h)
                        &&& dot3(ray.direction@, h.normal@) <= 0
                    },
                },
            decreases n - idx,
        {
            let item = self.items[idx];
            let candidate = item.hit(ray, t_min, closest_so_far);
            if let Some(hit_record) = candidate {
                proof {
                    assert(scene_hit3(
                        self@,
                        ray.origin@,
                        ray.direction@,
                        t_min as int,
                        t_max as int,
                        idx + 1,
                    ) == Some((hit_record.t as int, idx as int)));
                }
                closest_so_far = hit_record.t;
                result = Some(hit_record);
            }
            idx = idx + 1;
        }
        result
    }
}

} // verus!
