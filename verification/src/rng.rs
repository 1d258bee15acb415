//! Random sampling helpers for the stochastic parts of the tracer.
//!
//! The only trusted item is `random_range`, a thin wrapper over rand's
//! uniform range sampler; everything built on it is verified against the
//! wrapper's range contract, which holds of every outcome. Rejection
//! sampling is attempt-bounded with a fixed in-range fallback, so every
//! sampler provably terminates and provably returns a point of its stated
//! region.

use vstd::prelude::*;
use rand::Rng;
use crate::fixed::SCALE;
use crate::vec3::{
    Vec3, V3, mag_le, normsq3, unit3, dot3, lemma_dot3_neg_left, lemma_normsq3_neg,
    NSQ_MIN, NORM_MAX, UNIT_CAP,
};

verus! {

/// How many rejection-sampling attempts are made before falling back to a
/// fixed point of the target region.
pub const SAMPLE_ATTEMPTS: u32 = 64;

/// A point of the unit ball that the scalar grid can resolve: squared
/// length below one, but above the degeneracy threshold.
pub open spec fn in_unit_sphere(p: V3) -> bool {
    &&& mag_le(p, SCALE as int)
    &&& NSQ_MIN <= normsq3(p) < SCALE as int
}

/// A point of the unit disk in the `z = 0` plane.
pub open spec fn in_unit_disk(p: V3) -> bool {
    &&& mag_le(p, SCALE as int)
    &&& p.z == 0
    &&& normsq3(p) < SCALE as int
}

/// Relies on rand's `Rng::gen_range` over `lo..hi` (with `thread_rng`,
/// a per-thread generator): it panics only on an empty range and returns
/// a value of the half-open range.
#[verifier::external_body]
pub(crate) fn random_range(lo: i64, hi: i64) -> (r: i64)
    requires
        lo < hi,
    ensures
        lo <= r < hi,
{
    rand::thread_rng().gen_range(lo..hi)
}

/// A random point of the unit ball, by bounded rejection sampling of the
/// enclosing cube with a fixed fallback.
pub fn random_point_in_unit_sphere() -> (p: Vec3)
    ensures
        in_unit_sphere(p@),
{
    let mut attempts: u32 = 0;
    while attempts < SAMPLE_ATTEMPTS
        invariant
            attempts <= SAMPLE_ATTEMPTS,
        decreases SAMPLE_ATTEMPTS - attempts,
    {
        let p = Vec3::new(
            random_range(-SCALE, SCALE),
            random_range(-SCALE, SCALE),
            random_range(-SCALE, SCALE),
        );
        let nsq = p.norm_squared();
        if NSQ_MIN <= nsq && nsq < SCALE {
            return p;
        }
        attempts = attempts + 1;
    }
    let p = Vec3::new(SCALE / 2, 0, 0);
    proof {
        assert(500_000int * 500_000 == 250_000_000_000int) by (nonlinear_arith);
        assert(250_000_000_000int / 1_000_000 == 250_000);
        assert(0int * 0 == 0) by (nonlinear_arith);
        assert(0int / 1_000_000 == 0);
        assert(normsq3(p@) == 250_000);
    }
    p
}

/// A random unit-length direction: a unit-ball sample, normalized.
pub fn random_unit_vector() -> (u: Vec3)
    ensures
        exists|p: V3| in_unit_sphere(p) && u@ == unit3(p),
        mag_le(u@, UNIT_CAP as int),
        normsq3(u@) >= NSQ_MIN,
{
    let p = random_point_in_unit_sphere();
    let u = p.normalize();
    proof {
        assert(in_unit_sphere(p@) && u@ == unit3(p@));
    }
    u
}

/// A random point of the unit ball lying in the hemisphere around
/// `normal`: the sample, or its negation when it faces away.
pub fn random_point_in_hemisphere(normal: &Vec3) -> (p: Vec3)
    requires
        mag_le(normal@, NORM_MAX as int),
    ensures
        in_unit_sphere(p@),
        dot3(p@, normal@) >= 0,
{
    let p = random_point_in_unit_sphere();
    if p.dot(*normal) > 0 {
        p
    } else {
        proof {
            lemma_dot3_neg_left(p@, normal@);
            lemma_normsq3_neg(p@);
        }
        p.neg()
    }
}

/// A random point of the unit disk in the `z = 0` plane, by bounded
/// rejection sampling with the disk's center as fallback.
pub fn random_point_in_unit_disk() -> (p: Vec3)
    ensures
        in_unit_disk(p@),
{
    let mut attempts: u32 = 0;
    while attempts < SAMPLE_ATTEMPTS
        invariant
            attempts <= SAMPLE_ATTEMPTS,
        decreases SAMPLE_ATTEMPTS - attempts,
    {
        let p = Vec3::new(random_range(-SCALE, SCALE), random_range(-SCALE, SCALE), 0);
        let nsq = p.norm_squared();
        if nsq < SCALE {
            return p;
        }
        attempts = attempts + 1;
    }
    let p = Vec3::new(0, 0, 0);
    proof {
        assert(normsq3(p@) == 0);
    }
    p
}

} // verus!
