//! Three-component fixed-point vectors, used uniformly for points,
//! directions and colors.
//!
//! Executable vectors hold `i64` fixed-point scalars; their mathematical
//! model is `V3`, a triple of unbounded integers, and every operation's
//! contract states the exact truncated-arithmetic result over `V3`.

use vstd::prelude::*;
use crate::fixed::{
    SCALE, tdiv, smul, sdiv, ssqrt, is_sqrt,
    fmul, fdiv, fsqrt,
    lemma_tdiv_le, lemma_tdiv_quot, lemma_tdiv_neg, lemma_tdiv_mono,
    lemma_smul_mag, lemma_smul_self_nonneg,
};

verus! {

/// Largest component magnitude accepted by the inner-product operations:
/// three products of scalars this size still fit in an `i64`.
pub const NORM_MAX: i64 = 1_500_000_000_000;

/// Smallest squared length (fixed point) that the scalar grid can
/// normalize reliably: vectors shorter than a tenth of a unit are treated
/// as degenerate.
pub const NSQ_MIN: i64 = 10_000;

/// Component bound on the output of `normalize`: one unit plus the
/// truncation slack of the grid.
pub const UNIT_CAP: i64 = 1_011_000;

/// The mathematical model of a vector: three unbounded integers.
pub ghost struct V3 {
    pub x: int,
    pub y: int,
    pub z: int,
}

/// An executable vector of three fixed-point scalars.
#[derive(Clone, Copy, PartialEq, Eq, Structural, Debug)]
pub struct Vec3 {
    pub x: i64,
    pub y: i64,
    pub z: i64,
}

impl View for Vec3 {
    type V = V3;

    open spec fn view(&self) -> V3 {
        V3 { x: self.x as int, y: self.y as int, z: self.z as int }
    }
}

/// Every component has magnitude at most `m`.
pub open spec fn mag_le(a: V3, m: int) -> bool {
    &&& -m <= a.x <= m
    &&& -m <= a.y <= m
    &&& -m <= a.z <= m
}

pub open spec fn add3(a: V3, b: V3) -> V3 {
    V3 { x: a.x + b.x, y: a.y + b.y, z: a.z + b.z }
}

pub open spec fn sub3(a: V3, b: V3) -> V3 {
    V3 { x: a.x - b.x, y: a.y - b.y, z: a.z - b.z }
}

pub open spec fn neg3(a: V3) -> V3 {
    V3 { x: -a.x, y: -a.y, z: -a.z }
}

/// Scaling by a fixed-point scalar `k`.
pub open spec fn scale3(k: int, a: V3) -> V3 {
    V3 { x: smul(k, a.x), y: smul(k, a.y), z: smul(k, a.z) }
}

/// Component-wise (Hadamard) product.
pub open spec fn cmul3(a: V3, b: V3) -> V3 {
    V3 { x: smul(a.x, b.x), y: smul(a.y, b.y), z: smul(a.z, b.z) }
}

/// Inner product of two fixed-point vectors.
pub open spec fn dot3(a: V3, b: V3) -> int {
    smul(a.x, b.x) + smul(a.y, b.y) + smul(a.z, b.z)
}

pub open spec fn cross3(a: V3, b: V3) -> V3 {
    V3 {
        x: smul(a.y, b.z) - smul(a.z, b.y),
        y: smul(a.z, b.x) - smul(a.x, b.z),
        z: smul(a.x, b.y) - smul(a.y, b.x),
    }
}

/// Squared length.
pub open spec fn normsq3(a: V3) -> int {
    dot3(a, a)
}

/// Length: fixed-point square root of the squared length.
pub open spec fn norm3(a: V3) -> int {
    ssqrt(normsq3(a))
}

/// The unit vector in the direction of `a`.
pub open spec fn unit3(a: V3) -> V3 {
    V3 {
        x: sdiv(a.x, norm3(a)),
        y: sdiv(a.y, norm3(a)),
        z: sdiv(a.z, norm3(a)),
    }
}

/// Mirror reflection of `v` about the normal `n`.
pub open spec fn reflect3(v: V3, n: V3) -> V3 {
    sub3(v, scale3(2 * dot3(v, n), n))
}

/// A squared length is never negative.
pub proof fn lemma_normsq3_nonneg(a: V3)
    ensures
        normsq3(a) >= 0,
        smul(a.x, a.x) >= 0,
        smul(a.y, a.y) >= 0,
        smul(a.z, a.z) >= 0,
{
    lemma_smul_self_nonneg(a.x);
    lemma_smul_self_nonneg(a.y);
    lemma_smul_self_nonneg(a.z);
}

/// Magnitude bound on an inner product from bounds on its arguments.
pub proof fn lemma_dot3_mag(a: V3, b: V3, ma: int, mb: int)
    requires
        mag_le(a, ma),
        mag_le(b, mb),
    ensures
        -3 * tdiv(ma * mb, SCALE as int) <= dot3(a, b) <= 3 * tdiv(ma * mb, SCALE as int),
{
    lemma_smul_mag(a.x, b.x, ma, mb);
    lemma_smul_mag(a.y, b.y, ma, mb);
    lemma_smul_mag(a.z, b.z, ma, mb);
}

/// The inner product is odd in its second argument.
pub proof fn lemma_dot3_neg(a: V3, b: V3)
    ensures
        dot3(a, neg3(b)) == -dot3(a, b),
{
    assert(a.x * (-b.x) == -(a.x * b.x)) by (nonlinear_arith);
    assert(a.y * (-b.y) == -(a.y * b.y)) by (nonlinear_arith);
    assert(a.z * (-b.z) == -(a.z * b.z)) by (nonlinear_arith);
    lemma_tdiv_neg(a.x * b.x, SCALE as int);
    lemma_tdiv_neg(a.y * b.y, SCALE as int);
    lemma_tdiv_neg(a.z * b.z, SCALE as int);
}

/// The inner product is odd in its first argument.
pub proof fn lemma_dot3_neg_left(a: V3, b: V3)
    ensures
        dot3(neg3(a), b) == -dot3(a, b),
{
    assert((-a.x) * b.x == -(a.x * b.x)) by (nonlinear_arith);
    assert((-a.y) * b.y == -(a.y * b.y)) by (nonlinear_arith);
    assert((-a.z) * b.z == -(a.z * b.z)) by (nonlinear_arith);
    lemma_tdiv_neg(a.x * b.x, SCALE as int);
    lemma_tdiv_neg(a.y * b.y, SCALE as int);
    lemma_tdiv_neg(a.z * b.z, SCALE as int);
}

/// Negation preserves the squared length.
pub proof fn lemma_normsq3_neg(a: V3)
    ensures
        normsq3(neg3(a)) == normsq3(a),
{
    assert((-a.x) * (-a.x) == a.x * a.x) by (nonlinear_arith);
    assert((-a.y) * (-a.y) == a.y * a.y) by (nonlinear_arith);
    assert((-a.z) * (-a.z) == a.z * a.z) by (nonlinear_arith);
}

impl Vec3 {
    pub fn new(x: i64, y: i64, z: i64) -> (r: Vec3)
        ensures
            r@ == (V3 { x: x as int, y: y as int, z: z as int }),
    {
        Vec3 { x, y, z }
    }

    /// The vector with all three components equal to `e`.
    pub fn from_element(e: i64) -> (r: Vec3)
        ensures
            r@ == (V3 { x: e as int, y: e as int, z: e as int }),
    {
        Vec3 { x: e, y: e, z: e }
    }

    pub fn add(self, o: Vec3) -> (r: Vec3)
        requires
            i64::MIN <= self@.x + o@.x <= i64::MAX,
            i64::MIN <= self@.y + o@.y <= i64::MAX,
            i64::MIN <= self@.z + o@.z <= i64::MAX,
        ensures
            r@ == add3(self@, o@),
    {
        Vec3 { x: self.x + o.x, y: self.y + o.y, z: self.z + o.z }
    }

    pub fn sub(self, o: Vec3) -> (r: Vec3)
        requires
            i64::MIN <= self@.x - o@.x <= i64::MAX,
            i64::MIN <= self@.y - o@.y <= i64::MAX,
            i64::MIN <= self@.z - o@.z <= i64::MAX,
        ensures
            r@ == sub3(self@, o@),
    {
        Vec3 { x: self.x - o.x, y: self.y - o.y, z: self.z - o.z }
    }

    pub fn neg(self) -> (r: Vec3)
        requires
            self@.x > i64::MIN,
            self@.y > i64::MIN,
            self@.z > i64::MIN,
        ensures
            r@ == neg3(self@),
    {
        Vec3 { x: -self.x, y: -self.y, z: -self.z }
    }

    /// Scale by the fixed-point scalar `k`.
    pub fn scale(self, k: i64) -> (r: Vec3)
        requires
            i64::MIN <= smul(k as int, self@.x) <= i64::MAX,
            i64::MIN <= smul(k as int, self@.y) <= i64::MAX,
            i64::MIN <= smul(k as int, self@.z) <= i64::MAX,
        ensures
            r@ == scale3(k as int, self@),
    {
        Vec3 { x: fmul(k, self.x), y: fmul(k, self.y), z: fmul(k, self.z) }
    }

    /// Component-wise product.
    pub fn component_mul(self, o: Vec3) -> (r: Vec3)
        requires
            i64::MIN <= smul(self@.x, o@.x) <= i64::MAX,
            i64::MIN <= smul(self@.y, o@.y) <= i64::MAX,
            i64::MIN <= smul(self@.z, o@.z) <= i64::MAX,
        ensures
            r@ == cmul3(self@, o@),
    {
        Vec3 { x: fmul(self.x, o.x), y: fmul(self.y, o.y), z: fmul(self.z, o.z) }
    }

    pub fn dot(self, o: Vec3) -> (r: i64)
        requires
            mag_le(self@, NORM_MAX as int),
            mag_le(o@, NORM_MAX as int),
        ensures
            r == dot3(self@, o@),
    {
        proof {
            lemma_smul_mag(self@.x, o@.x, NORM_MAX as int, NORM_MAX as int);
            lemma_smul_mag(self@.y, o@.y, NORM_MAX as int, NORM_MAX as int);
            lemma_smul_mag(self@.z, o@.z, NORM_MAX as int, NORM_MAX as int);
            assert(tdiv((NORM_MAX as int) * (NORM_MAX as int), SCALE as int)
                == 2_250_000_000_000_000_000int);
        }
        fmul(self.x, o.x) + fmul(self.y, o.y) + fmul(self.z, o.z)
    }

    pub fn cross(self, o: Vec3) -> (r: Vec3)
        requires
            mag_le(self@, 1_000_000_000int),
            mag_le(o@, 1_000_000_000int),
        ensures
            r@ == cross3(self@, o@),
    {
        proof {
            lemma_smul_mag(self@.y, o@.z, 1_000_000_000int, 1_000_000_000int);
            lemma_smul_mag(self@.z, o@.y, 1_000_000_000int, 1_000_000_000int);
            lemma_smul_mag(self@.z, o@.x, 1_000_000_000int, 1_000_000_000int);
            lemma_smul_mag(self@.x, o@.z, 1_000_000_000int, 1_000_000_000int);
            lemma_smul_mag(self@.x, o@.y, 1_000_000_000int, 1_000_000_000int);
            lemma_smul_mag(self@.y, o@.x, 1_000_000_000int, 1_000_000_000int);
            assert(tdiv(1_000_000_000_000_000_000int, SCALE as int) == 1_000_000_000_000int);
        }
        Vec3 {
            x: fmul(self.y, o.z) - fmul(self.z, o.y),
            y: fmul(self.z, o.x) - fmul(self.x, o.z),
            z: fmul(self.x, o.y) - fmul(self.y, o.x),
        }
    }

    /// Squared length.
    pub fn norm_squared(self) -> (r: i64)
        requires
            mag_le(self@, NORM_MAX as int),
        ensures
            r == normsq3(self@),
            r >= 0,
    {
        proof {
            lemma_normsq3_nonneg(self@);
        }
        self.dot(self)
    }

    /// Length of the vector.
    pub fn length(self) -> (r: i64)
        requires
            mag_le(self@, NORM_MAX as int),
        ensures
            r == norm3(self@),
            r >= 0,
    {
        let nsq = self.norm_squared();
        fsqrt(nsq)
    }

    /// The unit vector in this vector's direction. The result is exact
    /// truncated division by the fixed-point length; its components stay
    /// within one unit plus grid slack, and its squared length stays above
    /// the degeneracy threshold.
    pub fn normalize(self) -> (r: Vec3)
        requires
            mag_le(self@, NORM_MAX as int),
            normsq3(self@) >= NSQ_MIN,
        ensures
            r@ == unit3(self@),
            mag_le(r@, UNIT_CAP as int),
            normsq3(r@) >= NSQ_MIN,
    {
        let nsq = self.norm_squared();
        let len = fsqrt(nsq);
        proof {
            lemma_unit_bounds(self@, nsq as int, len as int);
        }
        let r = Vec3 { x: fdiv(self.x, len), y: fdiv(self.y, len), z: fdiv(self.z, len) };
        proof {
            lemma_unit_normsq(self@, nsq as int, len as int, r@);
        }
        r
    }
}

/// From the square-root bracket of the length: the length is at least
/// `100_000`, each component's truncated quotient stays within `UNIT_CAP`,
/// and the quotients fit in `i64`.
proof fn lemma_unit_bounds(a: V3, nsq: int, len: int)
    requires
        mag_le(a, NORM_MAX as int),
        nsq == normsq3(a),
        nsq >= NSQ_MIN,
        is_sqrt(nsq * (SCALE as int), len),
    ensures
        len >= 100_000,
        -(UNIT_CAP as int) <= sdiv(a.x, len) <= UNIT_CAP as int,
        -(UNIT_CAP as int) <= sdiv(a.y, len) <= UNIT_CAP as int,
        -(UNIT_CAP as int) <= sdiv(a.z, len) <= UNIT_CAP as int,
        sdiv(a.x, len) * a.x >= 0,
        sdiv(a.y, len) * a.y >= 0,
        sdiv(a.z, len) * a.z >= 0,
{
    let s = SCALE as int;
    // len >= 100_000: otherwise (len+1)^2 <= 100_000^2 <= nsq * SCALE.
    if len < 100_000 {
        assert((len + 1) * (len + 1) <= 100_000 * 100_000) by (nonlinear_arith)
            requires 0 <= len < 100_000;
        assert(nsq * s >= 10_000 * 1_000_000) by (nonlinear_arith)
            requires nsq >= 10_000, s == 1_000_000;
        assert(false);
    }
    lemma_normsq3_nonneg(a);
    lemma_unit_comp(a.x, nsq, len, smul(a.y, a.y) + smul(a.z, a.z));
    lemma_unit_comp(a.y, nsq, len, smul(a.x, a.x) + smul(a.z, a.z));
    lemma_unit_comp(a.z, nsq, len, smul(a.x, a.x) + smul(a.y, a.y));
}

/// One component of the normalized vector is bounded by `UNIT_CAP` and
/// keeps the component's sign.
proof fn lemma_unit_comp(c: int, nsq: int, len: int, rest: int)
    requires
        nsq == smul(c, c) + rest,
        rest >= 0,
        nsq >= NSQ_MIN,
        len >= 100_000,
        is_sqrt(nsq * (SCALE as int), len),
    ensures
        -(UNIT_CAP as int) <= sdiv(c, len) <= UNIT_CAP as int,
        sdiv(c, len) * c >= 0,
{
    let s = SCALE as int;
    // c*c <= nsq*s + s - 1, from nsq >= tdiv(c*c, s).
    lemma_smul_self_nonneg(c);
    assert(c * c >= 0) by (nonlinear_arith);
    vstd::arithmetic::div_mod::lemma_fundamental_div_mod(c * c, s);
    vstd::arithmetic::div_mod::lemma_remainder_upper(c * c, s);
    assert(c * c < s * (tdiv(c * c, s) + 1));
    assert(c * c <= nsq * s + s - 1) by (nonlinear_arith)
        requires
            c * c < s * (tdiv(c * c, s) + 1),
            tdiv(c * c, s) <= nsq,
            s == 1_000_000;
    // nsq*s <= len^2 + 2*len from the bracket.
    assert(nsq * s <= len * len + 2 * len) by (nonlinear_arith)
        requires nsq * s < (len + 1) * (len + 1);
    // |c| <= len + 1001.
    assert(-(len + 1001) <= c <= len + 1001) by (nonlinear_arith)
        requires
            c * c <= len * len + 2 * len + 1_000_000,
            len >= 100_000;
    // |c * s| <= len * UNIT_CAP.
    assert(-(len * (UNIT_CAP as int)) <= c * s <= len * (UNIT_CAP as int)) by (nonlinear_arith)
        requires
            -(len + 1001) <= c <= len + 1001,
            len >= 100_000,
            s == 1_000_000,
            UNIT_CAP == 1_011_000i64;
    lemma_tdiv_quot(c * s, len, UNIT_CAP as int);
    // Sign is preserved.
    if c >= 0 {
        assert(c * s >= 0) by (nonlinear_arith) requires c >= 0, s > 0;
        lemma_tdiv_le(c * s, len, len * (UNIT_CAP as int));
        assert(sdiv(c, len) * c >= 0) by (nonlinear_arith)
            requires sdiv(c, len) >= 0, c >= 0;
    } else {
        assert(c * s < 0) by (nonlinear_arith) requires c < 0, s > 0;
        lemma_tdiv_le(c * s, len, len * (UNIT_CAP as int));
        assert(sdiv(c, len) * c >= 0) by (nonlinear_arith)
            requires sdiv(c, len) <= 0, c <= 0;
    }
}

/// The normalized vector's squared length stays above the degeneracy
/// threshold: its largest component is at least half a unit.
proof fn lemma_unit_normsq(a: V3, nsq: int, len: int, r: V3)
    requires
        nsq == normsq3(a),
        nsq >= NSQ_MIN,
        len >= 100_000,
        is_sqrt(nsq * (SCALE as int), len),
        r.x == sdiv(a.x, len),
        r.y == sdiv(a.y, len),
        r.z == sdiv(a.z, len),
        r.x * a.x >= 0,
        r.y * a.y >= 0,
        r.z * a.z >= 0,
    ensures
        normsq3(r) >= NSQ_MIN,
{
    let s = SCALE as int;
    lemma_normsq3_nonneg(a);
    // Some component's square term is at least a third of nsq.
    let tx = smul(a.x, a.x);
    let ty = smul(a.y, a.y);
    let tz = smul(a.z, a.z);
    lemma_normsq3_nonneg(r);
    if tx >= ty && tx >= tz {
        lemma_unit_comp_low(a.x, tx, nsq, len, r.x);
    } else if ty >= tz {
        lemma_unit_comp_low(a.y, ty, nsq, len, r.y);
    } else {
        lemma_unit_comp_low(a.z, tz, nsq, len, r.z);
    }
}

/// A component carrying at least a third of the squared length maps, under
/// normalization, to a component of at least roughly half a unit, whose
/// square term alone reaches the degeneracy threshold.
proof fn lemma_unit_comp_low(c: int, tc: int, nsq: int, len: int, rc: int)
    requires
        tc == smul(c, c),
        3 * tc >= nsq,
        nsq >= NSQ_MIN,
        len >= 100_000,
        is_sqrt(nsq * (SCALE as int), len),
        rc == sdiv(c, len),
        rc * c >= 0,
    ensures
        smul(rc, rc) >= NSQ_MIN,
{
    let s = SCALE as int;
    // c*c >= tc * s >= nsq * s / 3 >= len^2 / 3.
    lemma_smul_self_nonneg(c);
    assert(c * c >= 0) by (nonlinear_arith);
    vstd::arithmetic::div_mod::lemma_fundamental_div_mod(c * c, s);
    vstd::arithmetic::div_mod::lemma_remainder_lower(c * c, s);
    assert(c * c >= tc * s) by (nonlinear_arith)
        requires c * c >= s * tc + 0, s == 1_000_000;
    assert(4 * (c * c) >= len * len) by (nonlinear_arith)
        requires
            c * c >= tc * s,
            3 * tc >= nsq,
            len * len <= nsq * s,
            tc >= 0,
            s == 1_000_000;
    // |c| >= len / 2.
    let m = if c >= 0 { c } else { -c };
    assert(2 * m >= len) by (nonlinear_arith)
        requires
            4 * (c * c) >= len * len,
            m == (if c >= 0 { c } else { -c }),
            len >= 0;
    // |rc| = (m * s) / len >= (m*s - len + 1)/len >= s/2 - 1.
    let q = (m * s) / len;
    assert(m * s >= 0) by (nonlinear_arith) requires m >= 0, s > 0;
    vstd::arithmetic::div_mod::lemma_fundamental_div_mod(m * s, len);
    vstd::arithmetic::div_mod::lemma_remainder_upper(m * s, len);
    vstd::arithmetic::div_mod::lemma_div_pos_is_pos(m * s, len);
    assert(q >= 499_999) by (nonlinear_arith)
        requires
            len * q > m * s - len,
            2 * m >= len,
            len >= 100_000,
            q >= 0,
            s == 1_000_000;
    // rc is +/- q.
    if c >= 0 {
        assert(m * s == c * s);
        assert(rc == q);
    } else {
        assert(m * s == -(c * s)) by (nonlinear_arith) requires m == -c;
        assert(c * s < 0) by (nonlinear_arith) requires c < 0, s > 0;
        assert(rc == -q);
    }
    // q^2 / s >= NSQ_MIN.
    assert(rc * rc >= 499_999 * 499_999) by (nonlinear_arith)
        requires (rc == q || rc == -q), q >= 499_999;
    lemma_tdiv_mono(499_999int * 499_999, rc * rc, s);
    assert(tdiv(499_999int * 499_999, s) == 249_999);
}

} // verus!
