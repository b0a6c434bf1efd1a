//! Fixed-point vector arithmetic: squared distances, an integer square
//! root, and direction scaling with normalize-or-zero semantics.

use vstd::prelude::*;
use vstd::arithmetic::div_mod::{
    lemma_div_is_ordered, lemma_div_multiples_vanish, lemma_div_nonincreasing, lemma_div_of0,
    lemma_div_pos_is_pos,
};
use vstd::arithmetic::mul::{lemma_mul_inequality, lemma_mul_nonnegative};
use crate::units::MAX_COORD_MILLI;

verus! {

/// A 3-vector with each component in milli-units.
#[derive(Clone, Copy, PartialEq, Eq, Structural, Debug)]
pub struct Vec3Milli {
    pub x: i64,
    pub y: i64,
    pub z: i64,
}

impl Vec3Milli {
    /// Every component within the coordinate bound of the world.
    pub open spec fn spec_in_bounds(self) -> bool {
        &&& -MAX_COORD_MILLI <= self.x <= MAX_COORD_MILLI
        &&& -MAX_COORD_MILLI <= self.y <= MAX_COORD_MILLI
        &&& -MAX_COORD_MILLI <= self.z <= MAX_COORD_MILLI
    }

    pub fn in_bounds(&self) -> (r: bool)
        ensures
            r == self.spec_in_bounds(),
    {
        -MAX_COORD_MILLI <= self.x && self.x <= MAX_COORD_MILLI
            && -MAX_COORD_MILLI <= self.y && self.y <= MAX_COORD_MILLI
            && -MAX_COORD_MILLI <= self.z && self.z <= MAX_COORD_MILLI
    }

    pub fn zero() -> (r: Vec3Milli)
        ensures
            r == (Vec3Milli { x: 0, y: 0, z: 0 }),
    {
        Vec3Milli { x: 0, y: 0, z: 0 }
    }
}

/// Square of an integer.
pub open spec fn sq(a: int) -> int {
    a * a
}

/// Squared Euclidean distance between two points, exact in milli scale.
pub open spec fn spec_dist_sq(a: Vec3Milli, b: Vec3Milli) -> int {
    sq(a.x - b.x) + sq(a.y - b.y) + sq(a.z - b.z)
}

/// A square of a moderate value is nonnegative and fits in a word.
pub proof fn lemma_sq_fits(v: int)
    by (nonlinear_arith)
    requires
        -2_000_000_000 <= v <= 2_000_000_000,
    ensures
        0 <= v * v <= 4_000_000_000_000_000_000,
{
}

/// Squares are never negative.
pub proof fn lemma_sq_nonneg(a: int)
    by (nonlinear_arith)
    ensures
        sq(a) >= 0,
{
}

/// Squaring forgets the sign.
pub proof fn lemma_sq_neg(a: int)
    by (nonlinear_arith)
    ensures
        sq(a) == sq(-a),
{
}

/// Squared distance of two in-bounds points; fits in `u64`.
pub fn dist_sq(a: Vec3Milli, b: Vec3Milli) -> (r: u64)
    requires
        a.spec_in_bounds(),
        b.spec_in_bounds(),
    ensures
        r == spec_dist_sq(a, b),
        r <= 12_000_000_000_000_000_000u64,
{
    let dx: i64 = a.x - b.x;
    let dy: i64 = a.y - b.y;
    let dz: i64 = a.z - b.z;
    proof {
        lemma_sq_fits(dx as int);
        lemma_sq_fits(dy as int);
        lemma_sq_fits(dz as int);
    }
    let sx: u64 = (dx * dx) as u64;
    let sy: u64 = (dy * dy) as u64;
    let sz: u64 = (dz * dz) as u64;
    sx + sy + sz
}

/// The integer square root: the unique `r >= 0` with
/// `r * r <= n < (r + 1) * (r + 1)`.
pub open spec fn spec_isqrt(n: int) -> int {
    choose|r: int| 0 <= r && #[trigger] sq(r) <= n < sq(r + 1)
}

proof fn lemma_isqrt_unique(n: int, r1: int, r2: int)
    by (nonlinear_arith)
    requires
        0 <= r1,
        0 <= r2,
        sq(r1) <= n < sq(r1 + 1),
        sq(r2) <= n < sq(r2 + 1),
    ensures
        r1 == r2,
{
}

/// `spec_isqrt(n)` equals any witness of the square-root property.
pub proof fn lemma_isqrt_is(n: int, r: int)
    requires
        0 <= r,
        sq(r) <= n < sq(r + 1),
    ensures
        spec_isqrt(n) == r,
{
    assert(sq(r) <= n < sq(r + 1));
    let w = choose|w: int| 0 <= w && #[trigger] sq(w) <= n < sq(w + 1);
    lemma_isqrt_unique(n, w, r);
}

/// Binary-search integer square root over the full `u64` range.
pub fn isqrt_u64(n: u64) -> (r: u64)
    ensures
        0 <= r,
        sq(r as int) <= n as int,
        (n as int) < sq(r as int + 1),
        r as int == spec_isqrt(n as int),
{
    let mut lo: u64 = 0;
    let mut hi: u64 = 4_294_967_296;
    proof {
        assert((n as int) < sq(4_294_967_296 as int)) by (nonlinear_arith)
            requires n <= u64::MAX;
    }
    while lo + 1 < hi
        invariant
            lo < hi <= 4_294_967_296,
            sq(lo as int) <= n as int,
            (n as int) < sq(hi as int),
        decreases hi - lo,
    {
        let mid: u64 = lo + (hi - lo) / 2;
        proof {
            assert(mid * mid <= 4_294_967_295u64 * 4_294_967_295u64) by (nonlinear_arith)
                requires mid <= 4_294_967_295u64;
        }
        if mid * mid <= n {
            lo = mid;
        } else {
            hi = mid;
        }
    }
    proof {
        lemma_isqrt_is(n as int, lo as int);
    }
    lo
}

/// Truncating scale of a signed offset: `d * speed / dist`, rounded
/// toward zero.
pub open spec fn spec_scaled(d: int, speed: int, dist: int) -> int {
    if d >= 0 {
        (d * speed) / dist
    } else {
        -((-d * speed) / dist)
    }
}

proof fn lemma_abs_le_of_sq_le(d: int, dist: int)
    by (nonlinear_arith)
    requires
        1 <= dist,
        sq(d) <= sq(dist),
    ensures
        -dist <= d <= dist,
{
}

proof fn lemma_scaled_component_bounded(a: int, speed: int, dist: int)
    requires
        0 <= a <= dist,
        0 <= speed,
        1 <= dist,
    ensures
        0 <= (a * speed) / dist <= speed,
{
    lemma_mul_nonnegative(a, speed);
    lemma_mul_inequality(a, dist, speed);
    lemma_div_pos_is_pos(a * speed, dist);
    lemma_div_is_ordered(a * speed, dist * speed, dist);
    lemma_div_multiples_vanish(speed, dist);
}

proof fn lemma_scaled_bounded(d: int, speed: int, dist: int)
    requires
        0 <= speed,
        1 <= dist,
        sq(d) <= sq(dist),
    ensures
        d >= 0 ==> 0 <= (d * speed) / dist <= speed,
        d < 0 ==> 0 <= (-d * speed) / dist <= speed,
{
    lemma_abs_le_of_sq_le(d, dist);
    if d >= 0 {
        lemma_scaled_component_bounded(d, speed, dist);
    } else {
        lemma_scaled_component_bounded(-d, speed, dist);
    }
}

/// One component of a direction scaled to a given speed: the offset `d`
/// times `speed`, divided by the vector's length `dist`.  Because the
/// length dominates each component, the result never exceeds `speed`.
pub fn scaled_toward(d: i64, speed: i64, dist: u64) -> (r: i64)
    requires
        -2 * MAX_COORD_MILLI <= d <= 2 * MAX_COORD_MILLI,
        0 <= speed <= 100_000,
        1 <= dist,
        sq(d as int) <= sq(dist as int),
    ensures
        r == spec_scaled(d as int, speed as int, dist as int),
        -speed <= r <= speed,
{
    proof {
        lemma_scaled_bounded(d as int, speed as int, dist as int);
        assert(2_000_000_000 * 100_000 <= u64::MAX as int) by (nonlinear_arith);
        assert forall|a: int, s: int| 0 <= a <= 2_000_000_000 && 0 <= s <= 100_000
            implies #[trigger] (a * s) <= 2_000_000_000 * 100_000 by {
            assert(a * s <= 2_000_000_000 * 100_000) by (nonlinear_arith)
                requires 0 <= a <= 2_000_000_000, 0 <= s <= 100_000;
        }
    }
    if d >= 0 {
        let num: u64 = (d as u64) * (speed as u64);
        proof {
            lemma_div_pos_is_pos(num as int, dist as int);
            lemma_div_nonincreasing(num as int, dist as int);
        }
        (num / dist) as i64
    } else {
        let neg: i64 = -d;
        let num: u64 = (neg as u64) * (speed as u64);
        proof {
            lemma_div_pos_is_pos(num as int, dist as int);
            lemma_div_nonincreasing(num as int, dist as int);
        }
        -((num / dist) as i64)
    }
}

/// A component no longer than the vector scales to at most the speed,
/// and keeps its sign.
pub proof fn lemma_scaled_in_speed(d: int, speed: int, dist: int)
    requires
        0 <= speed,
        1 <= dist,
        sq(d) <= sq(dist),
    ensures
        -speed <= spec_scaled(d, speed, dist) <= speed,
        d >= 0 ==> spec_scaled(d, speed, dist) >= 0,
        d <= 0 ==> spec_scaled(d, speed, dist) <= 0,
{
    lemma_scaled_bounded(d, speed, dist);
    if d == 0 {
        assert(0int * speed == 0) by (nonlinear_arith);
        lemma_div_of0(dist);
    }
}

/// Magnitude bound for a truncating scale: if `|d| * num <= bound * den`
/// then the scaled value stays within `bound`.
pub proof fn lemma_scaled_abs_le(d: int, num: int, den: int, bound: int)
    requires
        0 <= num,
        1 <= den,
        0 <= bound,
        (if d >= 0 { d } else { -d }) * num <= bound * den,
    ensures
        -bound <= spec_scaled(d, num, den) <= bound,
{
    let a: int = if d >= 0 { d } else { -d };
    lemma_mul_nonnegative(a, num);
    lemma_div_pos_is_pos(a * num, den);
    lemma_div_is_ordered(a * num, bound * den, den);
    lemma_div_multiples_vanish(bound, den);
    assert(bound * den == den * bound) by (nonlinear_arith);
    assert(0 <= (a * num) / den <= bound);
    if d >= 0 {
        assert(spec_scaled(d, num, den) == (a * num) / den);
    } else {
        assert(spec_scaled(d, num, den) == -((a * num) / den));
    }
}

/// Truncating multiply-then-divide of a signed value by a nonnegative
/// ratio, rounded toward zero as the reference hardware division does.
pub fn scale_trunc(d: i64, num: i64, den: u64) -> (r: i64)
    requires
        -10_000_000_000 <= d <= 10_000_000_000,
        0 <= num <= 100_000,
        1 <= den,
    ensures
        r == spec_scaled(d as int, num as int, den as int),
{
    proof {
        assert forall|a: int, s: int| 0 <= a <= 10_000_000_000 && 0 <= s <= 100_000
            implies #[trigger] (a * s) <= 1_000_000_000_000_000 by {
            assert(a * s <= 10_000_000_000 * 100_000) by (nonlinear_arith)
                requires 0 <= a <= 10_000_000_000, 0 <= s <= 100_000;
        }
    }
    if d >= 0 {
        let num_u: u64 = (d as u64) * (num as u64);
        proof {
            lemma_div_pos_is_pos(num_u as int, den as int);
            lemma_div_nonincreasing(num_u as int, den as int);
        }
        (num_u / den) as i64
    } else {
        let neg: i64 = -d;
        let num_u: u64 = (neg as u64) * (num as u64);
        proof {
            lemma_div_pos_is_pos(num_u as int, den as int);
            lemma_div_nonincreasing(num_u as int, den as int);
        }
        -((num_u / den) as i64)
    }
}

/// A component never larger in square than the whole squared length.
pub proof fn lemma_component_le_dist(d: int, rest: int, n: int)
    by (nonlinear_arith)
    requires
        0 <= rest,
        n == sq(d) + rest,
    ensures
        sq(d) <= n,
{
}

/// The squared component bound carries through the integer square root.
pub proof fn lemma_component_le_isqrt(d: int, n: int, r: int)
    requires
        sq(d) <= n,
        0 <= r,
        sq(r) <= n < sq(r + 1),
    ensures
        sq(d) <= sq(r),
{
    let a = if d >= 0 { d } else { -d };
    assert(a * a == d * d) by (nonlinear_arith)
        requires a == d || a == -d;
    assert(a <= r) by (nonlinear_arith)
        requires 0 <= a, 0 <= r, a * a < (r + 1) * (r + 1);
    assert(a * a <= r * r) by (nonlinear_arith)
        requires 0 <= a <= r;
}

} // verus!
