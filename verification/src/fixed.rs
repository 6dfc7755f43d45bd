//! Fixed-point scalars and 2-D vectors.
//!
//! Executable values are `i64` with a scale of [`FP_ONE`]: a raw value of
//! 1000 stands for 1.0. The mathematical model of a scalar is `int`, and the
//! model of a [`Vec2`] is [`V2`], a pair of unbounded integers; every
//! contract of this module is stated over those models. All operations
//! truncate toward zero, as machine division does.

use vstd::prelude::*;

verus! {

/// Fixed-point scale: this many raw units stand for 1.0.
pub const FP_ONE: i64 = 1000;

/// Magnitude bound under which the library's fixed-point arithmetic cannot
/// overflow an `i64`: the product of two values within `FP_MAG` fits.
pub const FP_MAG: i64 = 1_000_000_000;

/// The value is small enough to take part in a fixed-point product.
pub open spec fn fits(x: int) -> bool {
    -FP_MAG <= x <= FP_MAG
}

/// Absolute value of a mathematical integer.
pub open spec fn abs_i(a: int) -> int {
    if a >= 0 {
        a
    } else {
        -a
    }
}

/// Truncating division (rounding toward zero) for a positive divisor; this
/// is what `/` computes on machine integers, while `/` on `int` is
/// Euclidean.
pub open spec fn div_down(a: int, b: int) -> int {
    if a >= 0 {
        a / b
    } else {
        -((-a) / b)
    }
}

/// Fixed-point product: `a * b` rescaled back by [`FP_ONE`].
pub open spec fn spec_mul_fp(a: int, b: int) -> int {
    div_down(a * b, FP_ONE as int)
}

/// Clamp of `x` into `[lo, hi]`.
pub open spec fn spec_clamp(x: int, lo: int, hi: int) -> int {
    if x < lo {
        lo
    } else if x > hi {
        hi
    } else {
        x
    }
}

/// Mathematical model of a 2-D fixed-point vector.
pub struct V2 {
    pub x: int,
    pub y: int,
}

/// Squared Euclidean length of a model vector.
pub open spec fn norm_sq(v: V2) -> int {
    v.x * v.x + v.y * v.y
}

/// Both components take part in fixed-point products without overflow.
pub open spec fn fits2(v: V2) -> bool {
    fits(v.x) && fits(v.y)
}

/// Componentwise sum.
pub open spec fn v2_add(a: V2, b: V2) -> V2 {
    V2 { x: a.x + b.x, y: a.y + b.y }
}

/// Componentwise difference.
pub open spec fn v2_sub(a: V2, b: V2) -> V2 {
    V2 { x: a.x - b.x, y: a.y - b.y }
}

/// Componentwise fixed-point scaling by `s`.
pub open spec fn v2_scale(v: V2, s: int) -> V2 {
    V2 { x: spec_mul_fp(v.x, s), y: spec_mul_fp(v.y, s) }
}

/// Executable 2-D fixed-point vector.
#[derive(Clone, Copy, PartialEq, Eq, Structural, Debug)]
pub struct Vec2 {
    pub x: i64,
    pub y: i64,
}

impl View for Vec2 {
    type V = V2;

    open spec fn view(&self) -> V2 {
        V2 { x: self.x as int, y: self.y as int }
    }
}

/// The executable vector that carries the model value `v`; faithful
/// whenever both components are within `i64` range.
pub open spec fn vec2_of(v: V2) -> Vec2 {
    Vec2 { x: v.x as i64, y: v.y as i64 }
}

impl Vec2 {
    /// Componentwise sum.
    pub fn add(self, other: Vec2) -> (r: Vec2)
        requires
            fits2(self@),
            fits2(other@),
        ensures
            r@ == v2_add(self@, other@),
    {
        Vec2 { x: self.x + other.x, y: self.y + other.y }
    }

    /// Componentwise difference.
    pub fn sub(self, other: Vec2) -> (r: Vec2)
        requires
            fits2(self@),
            fits2(other@),
        ensures
            r@ == v2_sub(self@, other@),
    {
        Vec2 { x: self.x - other.x, y: self.y - other.y }
    }

    /// Componentwise fixed-point scaling.
    pub fn scale(self, s: i64) -> (r: Vec2)
        requires
            fits2(self@),
            fits(s as int),
        ensures
            r@ == v2_scale(self@, s as int),
    {
        Vec2 { x: mul_fp(self.x, s), y: mul_fp(self.y, s) }
    }
}

/// Truncating division of `a` by a positive divisor `b`.
pub fn div_fp(a: i64, b: i64) -> (r: i64)
    requires
        b > 0,
    ensures
        r == div_down(a as int, b as int),
        abs_i(r as int) <= abs_i(a as int),
        abs_i(r as int) * b <= abs_i(a as int),
{
    proof {
        lemma_div_down_mag(a as int, b as int);
    }
    let q = a.checked_div(b);
    match q {
        Some(v) => v,
        None => 0,
    }
}

/// Fixed-point product of two bounded scalars.
pub fn mul_fp(a: i64, b: i64) -> (r: i64)
    requires
        fits(a as int),
        fits(b as int),
    ensures
        r == spec_mul_fp(a as int, b as int),
        abs_i(r as int) <= abs_i(a as int * b as int),
        abs_i(r as int) * FP_ONE <= abs_i(a as int * b as int),
{
    proof {
        lemma_mul_mag(a as int, b as int, FP_MAG as int, FP_MAG as int);
    }
    let p: i64 = a * b;
    div_fp(p, FP_ONE)
}

/// Clamp `x` into `[lo, hi]`.
pub fn clamp_i64(x: i64, lo: i64, hi: i64) -> (r: i64)
    requires
        lo <= hi,
    ensures
        r == spec_clamp(x as int, lo as int, hi as int),
{
    if x < lo {
        lo
    } else if x > hi {
        hi
    } else {
        x
    }
}

/// Magnitude facts about division by a positive divisor.
pub proof fn lemma_div_mag(a: int, b: int) by (nonlinear_arith)
    requires
        a >= 0,
        b > 0,
    ensures
        0 <= a / b,
        (a / b) * b <= a,
        a / b <= a,
{
}

/// Magnitude facts about truncating division by a positive divisor.
pub proof fn lemma_div_down_mag(a: int, b: int)
    requires
        b > 0,
    ensures
        abs_i(div_down(a, b)) == abs_i(a) / b,
        abs_i(div_down(a, b)) * b <= abs_i(a),
        abs_i(div_down(a, b)) <= abs_i(a),
        a >= 0 ==> div_down(a, b) >= 0,
        a <= 0 ==> div_down(a, b) <= 0,
{
    if a >= 0 {
        lemma_div_mag(a, b);
    } else {
        lemma_div_mag(-a, b);
    }
}

/// The product of values bounded by `ca` and `cb` is bounded by `ca * cb`.
pub proof fn lemma_mul_mag(a: int, b: int, ca: int, cb: int) by (nonlinear_arith)
    requires
        abs_i(a) <= ca,
        abs_i(b) <= cb,
    ensures
        abs_i(a * b) <= ca * cb,
{
}

/// Monotonicity of division in the numerator, for a positive divisor.
pub proof fn lemma_div_ordered(a: int, b: int, d: int) by (nonlinear_arith)
    requires
        a <= b,
        d > 0,
    ensures
        a / d <= b / d,
{
}

/// `r` is the least integer whose square is at least `n`.
pub open spec fn is_sqrt_ceil(n: int, r: int) -> bool {
    &&& 0 <= r
    &&& n <= r * r
    &&& (r == 0 || (r - 1) * (r - 1) < n)
}

/// The least integer whose square is at least `n` (for `n >= 0` it exists
/// and is unique).
pub open spec fn sqrt_ceil_of(n: int) -> int {
    choose|r: int| is_sqrt_ceil(n, r)
}

/// Two integers both least with square at least `n` are equal.
pub proof fn lemma_sqrt_ceil_unique(n: int, a: int, b: int) by (nonlinear_arith)
    requires
        is_sqrt_ceil(n, a),
        is_sqrt_ceil(n, b),
    ensures
        a == b,
{
}

/// Rounded-up integer square root: the least `r` with `r * r >= n`.
pub fn sqrt_ceil(n: u64) -> (r: u64)
    requires
        n <= 0x4000_0000_0000_0000,
    ensures
        is_sqrt_ceil(n as int, r as int),
        r as int == sqrt_ceil_of(n as int),
        r <= 0x8000_0000,
        n > 0 ==> r > 0,
{
    let mut lo: u64 = 0;
    let mut hi: u64 = 0x8000_0000;
    assert(hi * hi == 0x4000_0000_0000_0000) by (nonlinear_arith)
        requires
            hi == 0x8000_0000u64,
    ;
    while lo < hi
        invariant
            lo <= hi <= 0x8000_0000,
            n <= hi * hi,
            lo == 0 || (lo - 1) * (lo - 1) < n,
        decreases hi - lo,
    {
        let mid: u64 = lo + (hi - lo) / 2;
        assert(mid < hi);
        assert(mid * mid <= 0x4000_0000_0000_0000) by (nonlinear_arith)
            requires
                mid <= 0x8000_0000,
        ;
        if mid * mid >= n {
            hi = mid;
        } else {
            lo = mid + 1;
        }
    }
    proof {
        assert(is_sqrt_ceil(n as int, lo as int));
        assert(is_sqrt_ceil(n as int, sqrt_ceil_of(n as int))) by {
            assert(exists|r: int| is_sqrt_ceil(n as int, r)) by {
                assert(is_sqrt_ceil(n as int, lo as int));
            }
        }
        lemma_sqrt_ceil_unique(n as int, lo as int, sqrt_ceil_of(n as int));
    }
    lo
}

/// Scaling a vector of length at most `l` by `s / l` yields a vector of
/// length at most `s`: the arithmetic core, over magnitudes.
proof fn lemma_scale_norm_core(ax: int, ay: int, mx: int, my: int, l: int, s: int)
    by (nonlinear_arith)
    requires
        l > 0,
        s >= 0,
        0 <= ax,
        0 <= ay,
        0 <= mx,
        0 <= my,
        mx * l <= ax * s,
        my * l <= ay * s,
        ax * ax + ay * ay <= l * l,
    ensures
        mx * mx + my * my <= s * s,
{
    assert((mx * l) * (mx * l) <= (ax * s) * (ax * s));
    assert((my * l) * (my * l) <= (ay * s) * (ay * s));
}

/// Componentwise truncating scaling of `v` by `s / l` keeps the squared
/// length at or under `s * s`, provided `l * l` bounds the squared length
/// of `v`.
pub proof fn lemma_scale_norm(v: V2, l: int, s: int)
    requires
        l > 0,
        s >= 0,
        norm_sq(v) <= l * l,
    ensures
        norm_sq(V2 { x: div_down(v.x * s, l), y: div_down(v.y * s, l) }) <= s * s,
{
    let mx = abs_i(div_down(v.x * s, l));
    let my = abs_i(div_down(v.y * s, l));
    let ax = abs_i(v.x);
    let ay = abs_i(v.y);
    lemma_div_down_mag(v.x * s, l);
    lemma_div_down_mag(v.y * s, l);
    assert(abs_i(v.x * s) == ax * s && abs_i(v.y * s) == ay * s) by (nonlinear_arith)
        requires
            s >= 0,
            ax == abs_i(v.x),
            ay == abs_i(v.y),
    ;
    assert(ax * ax + ay * ay == norm_sq(v)) by (nonlinear_arith)
        requires
            ax == abs_i(v.x),
            ay == abs_i(v.y),
    ;
    lemma_scale_norm_core(ax, ay, mx, my, l, s);
    assert(mx * mx == div_down(v.x * s, l) * div_down(v.x * s, l)) by (nonlinear_arith)
        requires
            mx == abs_i(div_down(v.x * s, l)),
    ;
    assert(my * my == div_down(v.y * s, l) * div_down(v.y * s, l)) by (nonlinear_arith)
        requires
            my == abs_i(div_down(v.y * s, l)),
    ;
}

/// A component of a vector is bounded by any bound on the vector's length.
pub proof fn lemma_component_bound(x: int, y: int, m: int) by (nonlinear_arith)
    requires
        x * x + y * y <= m * m,
        m >= 0,
    ensures
        -m <= x <= m,
        -m <= y <= m,
{
}

/// Lower bound on the squared length of a normalized nonzero vector:
/// normalization lands within about half a percent of unit length.
pub const UNIT_MIN_SQ: i64 = 990_000;

/// Direction of `v` as a unit fixed-point vector, or zero for zero input.
///
/// An input shorter than one unit is first scaled up by `FP_ONE` — an
/// exact operation that keeps the direction — so that the divisor is
/// large against the rounding. The components are then `w * FP_ONE / l`
/// truncated toward zero, where `l` is the rounded-up integer length of
/// the scaled vector `w`; the result's squared length always lies
/// between [`UNIT_MIN_SQ`] and `FP_ONE * FP_ONE`.
pub open spec fn spec_normalize(v: V2) -> V2 {
    if v.x == 0 && v.y == 0 {
        V2 { x: 0, y: 0 }
    } else {
        let w = if norm_sq(v) < FP_ONE * FP_ONE {
            V2 { x: v.x * FP_ONE, y: v.y * FP_ONE }
        } else {
            v
        };
        let l = sqrt_ceil_of(norm_sq(w));
        V2 { x: div_down(w.x * FP_ONE, l), y: div_down(w.y * FP_ONE, l) }
    }
}

/// `v` unchanged while its length is within `m`, otherwise `v` rescaled by
/// `m / l` with `l` the rounded-up integer length of `v`.
pub open spec fn spec_clamp_len(v: V2, m: int) -> V2 {
    if norm_sq(v) <= m * m {
        v
    } else {
        let l = sqrt_ceil_of(norm_sq(v));
        V2 { x: div_down(v.x * m, l), y: div_down(v.y * m, l) }
    }
}

/// Componentwise interpolation from `v` toward `t` by fixed-point factor
/// `s`: each component moves by `(t - v) * s / FP_ONE`, truncated.
pub open spec fn spec_lerp(v: V2, t: V2, s: int) -> V2 {
    v2_add(v, v2_scale(v2_sub(t, v), s))
}

impl Vec2 {
    /// Squared length, exact.
    pub fn norm_sq_exec(self) -> (r: i64)
        requires
            fits2(self@),
        ensures
            r == norm_sq(self@),
            0 <= r <= 2_000_000_000_000_000_000,
    {
        proof {
            lemma_mul_mag(self.x as int, self.x as int, FP_MAG as int, FP_MAG as int);
            lemma_mul_mag(self.y as int, self.y as int, FP_MAG as int, FP_MAG as int);
            assert(self.x as int * self.x as int >= 0) by (nonlinear_arith);
            assert(self.y as int * self.y as int >= 0) by (nonlinear_arith);
        }
        self.x * self.x + self.y * self.y
    }

    /// The unit-direction vector of `self`, or zero when `self` is zero;
    /// a nonzero input always yields a nearly exact unit vector.
    pub fn normalize_or_zero(self) -> (r: Vec2)
        requires
            fits2(self@),
        ensures
            r@ == spec_normalize(self@),
            norm_sq(r@) <= FP_ONE * FP_ONE,
            !(self.x == 0 && self.y == 0) ==> norm_sq(r@) >= UNIT_MIN_SQ,
            (self.x == 0 && self.y == 0) <==> r@ == (V2 { x: 0, y: 0 }),
    {
        if self.x == 0 && self.y == 0 {
            Vec2 { x: 0, y: 0 }
        } else {
            let n = self.norm_sq_exec();
            let w = if n < FP_ONE * FP_ONE {
                proof {
                    lemma_component_bound(self@.x, self@.y, FP_ONE as int);
                }
                Vec2 { x: self.x * FP_ONE, y: self.y * FP_ONE }
            } else {
                self
            };
            proof {
                assert(norm_sq(self@) >= 1) by (nonlinear_arith)
                    requires
                        !(self@.x == 0 && self@.y == 0),
                ;
                if n < FP_ONE * FP_ONE {
                    assert(norm_sq(w@) == FP_ONE * FP_ONE * norm_sq(self@)) by (nonlinear_arith)
                        requires
                            w@.x == self@.x * FP_ONE,
                            w@.y == self@.y * FP_ONE,
                    ;
                    assert(norm_sq(w@) >= FP_ONE * FP_ONE) by (nonlinear_arith)
                        requires
                            norm_sq(w@) == FP_ONE * FP_ONE * norm_sq(self@),
                            norm_sq(self@) >= 1,
                    ;
                }
            }
            let nw = w.norm_sq_exec();
            let l = sqrt_ceil(nw as u64);
            let li: i64 = l as i64;
            proof {
                lemma_mul_mag(w.x as int, FP_ONE as int, FP_MAG as int, FP_ONE as int);
                lemma_mul_mag(w.y as int, FP_ONE as int, FP_MAG as int, FP_ONE as int);
                lemma_scale_norm(w@, li as int, FP_ONE as int);
                lemma_normalize_long(w@, li as int);
                lemma_div_down_mag(w@.x * FP_ONE, li as int);
                lemma_div_down_mag(w@.y * FP_ONE, li as int);
            }
            let rx = div_fp(w.x * FP_ONE, li);
            let ry = div_fp(w.y * FP_ONE, li);
            let r = Vec2 { x: rx, y: ry };
            proof {
                assert(r@ == spec_normalize(self@));
                assert(norm_sq(V2 { x: 0int, y: 0int }) == 0);
            }
            r
        }
    }

    /// `self` unchanged when its length is within `max`, otherwise `self`
    /// rescaled to length at most `max`.
    pub fn clamp_length_max(self, max: i64) -> (r: Vec2)
        requires
            fits2(self@),
            0 <= max <= FP_MAG,
        ensures
            r@ == spec_clamp_len(self@, max as int),
            norm_sq(r@) <= max * max,
            norm_sq(self@) <= max * max ==> r == self,
    {
        let n = self.norm_sq_exec();
        proof {
            lemma_mul_mag(max as int, max as int, FP_MAG as int, FP_MAG as int);
        }
        let mm: i64 = max * max;
        if n <= mm {
            self
        } else {
            let l = sqrt_ceil(n as u64);
            let li: i64 = l as i64;
            proof {
                lemma_mul_mag(self.x as int, max as int, FP_MAG as int, FP_MAG as int);
                lemma_mul_mag(self.y as int, max as int, FP_MAG as int, FP_MAG as int);
                lemma_scale_norm(self@, li as int, max as int);
            }
            let rx = div_fp(self.x * max, li);
            let ry = div_fp(self.y * max, li);
            Vec2 { x: rx, y: ry }
        }
    }

    /// Interpolate from `self` toward `t` by factor `s` in `[0, FP_ONE]`;
    /// each component of the result stays between the two inputs.
    pub fn lerp(self, t: Vec2, s: i64) -> (r: Vec2)
        requires
            fits2(self@),
            fits2(t@),
            fits2(v2_sub(t@, self@)),
            0 <= s <= FP_ONE,
        ensures
            r@ == spec_lerp(self@, t@, s as int),
            spec_min(self.x as int, t.x as int) <= r.x as int <= spec_max(
                self.x as int,
                t.x as int,
            ),
            spec_min(self.y as int, t.y as int) <= r.y as int <= spec_max(
                self.y as int,
                t.y as int,
            ),
    {
        proof {
            lemma_lerp_component(self.x as int, t.x as int, s as int);
            lemma_lerp_component(self.y as int, t.y as int, s as int);
        }
        let dx = mul_fp(t.x - self.x, s);
        let dy = mul_fp(t.y - self.y, s);
        Vec2 { x: self.x + dx, y: self.y + dy }
    }
}

/// Least of two integers.
pub open spec fn spec_min(a: int, b: int) -> int {
    if a <= b {
        a
    } else {
        b
    }
}

/// Greatest of two integers.
pub open spec fn spec_max(a: int, b: int) -> int {
    if a >= b {
        a
    } else {
        b
    }
}

/// One interpolated component lands between the two endpoints.
proof fn lemma_lerp_component(v: int, t: int, s: int)
    requires
        0 <= s <= FP_ONE,
    ensures
        spec_min(v, t) <= v + spec_mul_fp(t - v, s) <= spec_max(v, t),
{
    let d = t - v;
    lemma_div_down_mag(d * s, FP_ONE as int);
    assert(abs_i(d * s) <= abs_i(d) * FP_ONE) by (nonlinear_arith)
        requires
            0 <= s <= FP_ONE,
    ;
    lemma_div_ordered(abs_i(d * s), abs_i(d) * FP_ONE, FP_ONE as int);
    assert((abs_i(d) * FP_ONE) / (FP_ONE as int) == abs_i(d)) by (nonlinear_arith);
    assert(d >= 0 ==> d * s >= 0) by (nonlinear_arith)
        requires
            s >= 0,
    ;
    assert(d <= 0 ==> d * s <= 0) by (nonlinear_arith)
        requires
            s >= 0,
    ;
}

/// Normalizing a vector of length at least one unit lands near unit
/// length: the rounding can cost each scaled component at most one raw
/// step, so the squared length keeps at least [`UNIT_MIN_SQ`].
pub proof fn lemma_normalize_long(v: V2, l: int)
    requires
        is_sqrt_ceil(norm_sq(v), l),
        norm_sq(v) >= FP_ONE * FP_ONE,
    ensures
        norm_sq(V2 { x: div_down(v.x * FP_ONE, l), y: div_down(v.y * FP_ONE, l) })
            >= UNIT_MIN_SQ,
{
    let n = norm_sq(v);
    let ax = abs_i(v.x);
    let ay = abs_i(v.y);
    let mx = abs_i(div_down(v.x * FP_ONE, l));
    let my = abs_i(div_down(v.y * FP_ONE, l));
    assert(l >= FP_ONE) by (nonlinear_arith)
        requires
            l >= 0,
            n <= l * l,
            n >= FP_ONE * FP_ONE,
    ;
    lemma_div_down_mag(v.x * FP_ONE, l);
    lemma_div_down_mag(v.y * FP_ONE, l);
    assert(abs_i(v.x * FP_ONE) == ax * FP_ONE) by (nonlinear_arith)
        requires
            ax == abs_i(v.x),
    ;
    assert(abs_i(v.y * FP_ONE) == ay * FP_ONE) by (nonlinear_arith)
        requires
            ay == abs_i(v.y),
    ;
    // The quotient loses less than one whole step of the divisor.
    assert((mx + 1) * l > ax * FP_ONE) by (nonlinear_arith)
        requires
            mx == (ax * FP_ONE) / l,
            l > 0,
            ax >= 0,
    ;
    assert((my + 1) * l > ay * FP_ONE) by (nonlinear_arith)
        requires
            my == (ay * FP_ONE) / l,
            l > 0,
            ay >= 0,
    ;
    assert(n == ax * ax + ay * ay) by (nonlinear_arith)
        requires
            ax == abs_i(v.x),
            ay == abs_i(v.y),
            n == norm_sq(v),
    ;
    let s = (mx + 1) * (mx + 1) + (my + 1) * (my + 1);
    assert(s * (l * l) > n * (FP_ONE * FP_ONE)) by (nonlinear_arith)
        requires
            (mx + 1) * l > ax * FP_ONE,
            (my + 1) * l > ay * FP_ONE,
            ax >= 0,
            ay >= 0,
            mx >= 0,
            my >= 0,
            l > 0,
            n == ax * ax + ay * ay,
            s == (mx + 1) * (mx + 1) + (my + 1) * (my + 1),
    ;
    assert(n > (l - 1) * (l - 1));
    if l == FP_ONE {
        assert(s >= 998_001) by (nonlinear_arith)
            requires
                s * (l * l) > n * (FP_ONE * FP_ONE),
                n >= FP_ONE * FP_ONE,
                l == FP_ONE,
    ;
    } else {
        assert(1_000_000 * ((l - 1) * (l - 1)) - 998_000 * (l * l) == 2000 * (l * (l - 1000)
            + 500)) by (nonlinear_arith);
        assert(l * (l - 1000) >= 1001) by (nonlinear_arith)
            requires
                l >= 1001,
        ;
        assert(s >= 998_001) by (nonlinear_arith)
            requires
                s * (l * l) > n * 1_000_000,
                n > (l - 1) * (l - 1),
                1_000_000 * ((l - 1) * (l - 1)) - 998_000 * (l * l) == 2000 * (l * (l - 1000)
                    + 500),
                l * (l - 1000) >= 1001,
                l > 0,
        ;
    }
    lemma_scale_norm(v, l, FP_ONE as int);
    lemma_component_bound(
        div_down(v.x * FP_ONE, l),
        div_down(v.y * FP_ONE, l),
        FP_ONE as int,
    );
    assert(mx * mx + my * my >= s - 2 * mx - 2 * my - 2) by (nonlinear_arith)
        requires
            s == (mx + 1) * (mx + 1) + (my + 1) * (my + 1),
    ;
    assert(mx * mx + my * my == norm_sq(
        V2 { x: div_down(v.x * FP_ONE, l), y: div_down(v.y * FP_ONE, l) },
    )) by (nonlinear_arith)
        requires
            mx == abs_i(div_down(v.x * FP_ONE, l)),
            my == abs_i(div_down(v.y * FP_ONE, l)),
    ;
}

/// A vector whose components are dominated in magnitude has dominated
/// squared length.
pub proof fn lemma_norm_dominated(a: V2, b: V2) by (nonlinear_arith)
    requires
        abs_i(a.x) <= abs_i(b.x),
        abs_i(a.y) <= abs_i(b.y),
    ensures
        norm_sq(a) <= norm_sq(b),
{
}

/// Componentwise magnitude bound of a fixed-point scaling.
pub proof fn lemma_scale_mag(v: V2, s: int)
    ensures
        abs_i(v2_scale(v, s).x) * FP_ONE <= abs_i(v.x * s),
        abs_i(v2_scale(v, s).y) * FP_ONE <= abs_i(v.y * s),
{
    lemma_div_down_mag(v.x * s, FP_ONE as int);
    lemma_div_down_mag(v.y * s, FP_ONE as int);
}

/// A rounded-up square root exists for every nonnegative radicand; in
/// particular `sqrt_ceil_of` satisfies its characterization.
pub proof fn lemma_sqrt_ceil_exists(n: int)
    requires
        n >= 0,
    ensures
        is_sqrt_ceil(n, sqrt_ceil_of(n)),
    decreases n,
{
    if n == 0 {
        assert(is_sqrt_ceil(0, 0));
    } else {
        lemma_sqrt_ceil_exists(n - 1);
        let r = sqrt_ceil_of(n - 1);
        if n <= r * r {
            assert(is_sqrt_ceil(n, r));
        } else {
            assert(r * r == n - 1);
            assert(n <= (r + 1) * (r + 1)) by (nonlinear_arith)
                requires
                    r >= 0,
                    r * r == n - 1,
            ;
            assert(is_sqrt_ceil(n, r + 1));
        }
    }
    assert(exists|r: int| is_sqrt_ceil(n, r));
}

/// The length clamp does clamp: the result's squared length is within
/// `m * m` for any nonnegative `m`.
pub proof fn lemma_clamp_len_norm(v: V2, m: int)
    requires
        m >= 0,
    ensures
        norm_sq(spec_clamp_len(v, m)) <= m * m,
{
    if norm_sq(v) <= m * m {
    } else {
        assert(norm_sq(v) >= 0) by (nonlinear_arith);
        lemma_sqrt_ceil_exists(norm_sq(v));
        let l = sqrt_ceil_of(norm_sq(v));
        assert(l > 0) by (nonlinear_arith)
            requires
                is_sqrt_ceil(norm_sq(v), l),
                norm_sq(v) > m * m,
                m >= 0,
        ;
        lemma_scale_norm(v, l, m);
    }
}

} // verus!
