//! Fixed-point scalars: an `i64` count of steps of size `1 / SCALE`.
//!
//! Multiplication and division round toward negative infinity (floor), and
//! the square root is the floor square root, so every operation is an exact
//! mathematical function of the operands' raw values.

use vstd::arithmetic::div_mod::{
    lemma_div_is_ordered, lemma_div_nonincreasing, lemma_div_pos_is_pos,
    lemma_fundamental_div_mod, lemma_fundamental_div_mod_converse,
};
use vstd::prelude::*;

verus! {

/// Steps per unit: a raw value `r` denotes the real number `r / SCALE`.
pub const SCALE: i64 = 65536;

/// The raw value of one half.
pub const HALF_RAW: i64 = 32768;

pub open spec fn fits_i64(v: int) -> bool {
    i64::MIN <= v <= i64::MAX
}

/// Raw value of the fixed-point product: floor((a * b) / SCALE).
pub open spec fn mul_raw(a: int, b: int) -> int {
    (a * b) / (SCALE as int)
}

/// Raw value of the fixed-point quotient (positive divisor): floor((a * SCALE) / b).
pub open spec fn div_raw(a: int, b: int) -> int {
    (a * SCALE) / b
}

pub open spec fn is_sqrt_floor(x: int, r: int) -> bool {
    0 <= r && r * r <= x && (r + 1) * (r + 1) > x
}

/// The floor square root of a nonnegative integer.
pub open spec fn sqrt_floor(x: int) -> int {
    choose|r: int| #[trigger] is_sqrt_floor(x, r)
}

proof fn lemma_sqrt_exists(x: nat)
    ensures
        exists|r: int| #[trigger] is_sqrt_floor(x as int, r),
    decreases x,
{
    if x == 0 {
        assert(is_sqrt_floor(0, 0));
    } else {
        lemma_sqrt_exists((x - 1) as nat);
        let r = choose|r: int| #[trigger] is_sqrt_floor(x as int - 1, r);
        if (r + 1) * (r + 1) <= x {
            assert((r + 1) * (r + 1) > x - 1);
            assert((r + 1) * (r + 1) == x);
            assert((r + 2) * (r + 2) > x) by (nonlinear_arith)
                requires
                    r >= 0,
                    (r + 1) * (r + 1) == x,
            ;
            assert(is_sqrt_floor(x as int, r + 1));
        } else {
            assert(is_sqrt_floor(x as int, r));
        }
    }
}

/// The floor square root is the unique integer `r` with `r * r <= x < (r + 1) * (r + 1)`.
pub proof fn lemma_sqrt_floor_unique(x: int, r: int)
    requires
        is_sqrt_floor(x, r),
    ensures
        r == sqrt_floor(x),
{
    assert(x >= 0) by (nonlinear_arith)
        requires
            r >= 0,
            r * r <= x,
    ;
    lemma_sqrt_exists(x as nat);
    let s = sqrt_floor(x);
    assert(is_sqrt_floor(x, s));
    if r < s {
        assert((r + 1) * (r + 1) <= s * s) by (nonlinear_arith)
            requires
                0 <= r + 1 <= s,
        ;
        assert(false);
    }
    if s < r {
        assert((s + 1) * (s + 1) <= r * r) by (nonlinear_arith)
            requires
                0 <= s + 1 <= r,
        ;
        assert(false);
    }
}

/// `sqrt_floor(x)` satisfies its defining inequalities for every nonnegative `x`.
pub proof fn lemma_sqrt_floor(x: int)
    requires
        x >= 0,
    ensures
        is_sqrt_floor(x, sqrt_floor(x)),
{
    lemma_sqrt_exists(x as nat);
    let r = choose|r: int| #[trigger] is_sqrt_floor(x, r);
    lemma_sqrt_floor_unique(x, r);
}

/// The floor square root is monotonic.
pub proof fn lemma_sqrt_floor_is_monotonic(x: int, y: int)
    requires
        0 <= x <= y,
    ensures
        sqrt_floor(x) <= sqrt_floor(y),
{
    lemma_sqrt_floor(x);
    lemma_sqrt_floor(y);
    let a = sqrt_floor(x);
    let b = sqrt_floor(y);
    if b < a {
        assert((b + 1) * (b + 1) <= a * a) by (nonlinear_arith)
            requires
                0 <= b + 1 <= a,
        ;
        assert(false);
    }
}

/// The floor square root is below any `b` whose square exceeds `x`.
pub proof fn lemma_sqrt_floor_upper(x: int, b: int)
    requires
        0 <= x,
        0 <= b,
        x < b * b,
    ensures
        sqrt_floor(x) < b,
{
    lemma_sqrt_floor(x);
    let r = sqrt_floor(x);
    if r >= b {
        assert(b * b <= r * r) by (nonlinear_arith)
            requires
                0 <= b <= r,
        ;
        assert(false);
    }
}

/// Bound on a product from bounds on the factors.
pub proof fn lemma_mul_bound(a: int, b: int, aa: int, bb: int)
    by (nonlinear_arith)
    requires
        -aa <= a <= aa,
        -bb <= b <= bb,
        0 <= aa,
        0 <= bb,
    ensures
        -(aa * bb) <= a * b <= aa * bb,
{
}

/// Bound on a floor quotient from a bound on the dividend (positive divisor).
pub proof fn lemma_div_bound(a: int, b: int, m: int)
    requires
        b > 0,
        0 <= m,
        -m <= a <= m,
    ensures
        -m <= a / b <= m,
{
    lemma_div_is_ordered(a, m, b);
    lemma_div_is_ordered(-m, a, b);
    lemma_div_nonincreasing(m, b);
    assert((-m) / b >= -m) by {
        if m > 0 {
            lemma_fundamental_div_mod(-m, b);
            let q = (-m) / b;
            let r = (-m) % b;
            assert(-m == q * b + r);
            if q < -m {
                assert((q + 1) * b <= (-m) * b) by (nonlinear_arith)
                    requires
                        b >= 1,
                        q + 1 <= -m,
                ;
                assert((-m) * b <= -m) by (nonlinear_arith)
                    requires
                        b >= 1,
                        m >= 0,
                ;
                assert(q * b + b == (q + 1) * b) by (nonlinear_arith);
                assert(false);
            }
        }
    }
}

/// Floor quotient of two bounded raws stays within the dividend's bound.
pub proof fn lemma_mul_raw_bound(a: int, b: int, aa: int, bb: int)
    requires
        -aa <= a <= aa,
        -bb <= b <= bb,
        0 <= aa,
        0 <= bb,
    ensures
        -(aa * bb) / (SCALE as int) - 1 <= mul_raw(a, b) <= (aa * bb) / (SCALE as int),
{
    lemma_mul_bound(a, b, aa, bb);
    lemma_div_is_ordered(a * b, aa * bb, SCALE as int);
    lemma_div_is_ordered(-(aa * bb), a * b, SCALE as int);
    assert(-(aa * bb) / (SCALE as int) >= -(aa * bb) / (SCALE as int) - 1);
}

/// Scaling by a factor in `[0, 1]` keeps a nonnegative value nonnegative and
/// never enlarges it; scaling by exactly one is the identity.
pub proof fn lemma_mul_raw_unit(a: int, b: int)
    requires
        0 <= a <= SCALE,
        0 <= b,
    ensures
        0 <= mul_raw(a, b) <= b,
        a == SCALE ==> mul_raw(a, b) == b,
        b == 0 ==> mul_raw(a, b) == 0,
{
    assert(0 <= a * b <= SCALE * b) by (nonlinear_arith)
        requires
            0 <= a <= SCALE,
            0 <= b,
    ;
    lemma_div_pos_is_pos(a * b, SCALE as int);
    lemma_div_is_ordered(a * b, SCALE as int * b, SCALE as int);
    vstd::arithmetic::div_mod::lemma_div_multiples_vanish(b, SCALE as int);
    if b == 0 {
        assert(a * b == 0) by (nonlinear_arith)
            requires
                b == 0,
        ;
        vstd::arithmetic::div_mod::lemma_div_of0(SCALE as int);
    }
}

/// Averaging a sum of `n` unit-bounded terms with the stored reciprocal of
/// `n` lands back in the unit range.
pub proof fn lemma_pixel_scale_bound(acc: int, n: int)
    requires
        1 <= n <= 65536,
        0 <= acc <= n * SCALE,
    ensures
        0 <= mul_raw(acc, div_raw(SCALE as int, n * SCALE)) <= SCALE,
{
    let sc = div_raw(SCALE as int, n * SCALE);
    lemma_fundamental_div_mod(SCALE as int * SCALE, n * SCALE);
    assert(n * SCALE > 0) by (nonlinear_arith)
        requires
            n >= 1,
            SCALE > 0,
    ;
    lemma_div_pos_is_pos(SCALE as int * SCALE, n * SCALE);
    assert(sc * (n * SCALE) <= SCALE as int * SCALE) by (nonlinear_arith)
        requires
            SCALE as int * SCALE == (n * SCALE) * sc + (SCALE as int * SCALE) % (n * SCALE),
            (SCALE as int * SCALE) % (n * SCALE) >= 0,
    ;
    assert(0 <= acc * sc <= SCALE as int * SCALE) by (nonlinear_arith)
        requires
            0 <= acc <= n * SCALE,
            sc >= 0,
            sc * (n * SCALE) <= SCALE as int * SCALE,
    ;
    lemma_div_pos_is_pos(acc * sc, SCALE as int);
    lemma_div_is_ordered(acc * sc, SCALE as int * SCALE, SCALE as int);
    vstd::arithmetic::div_mod::lemma_div_multiples_vanish(SCALE as int, SCALE as int);
    assert(SCALE as int * SCALE == (SCALE as int) * (SCALE as int));
}

/// Floor division of a negated nonnegative value: one below the negated
/// quotient at worst.
pub proof fn lemma_div_neg(y: int, d: int)
    requires
        y >= 0,
        d > 0,
    ensures
        (-y) / d == if y % d == 0 { -(y / d) } else { -(y / d) - 1 },
        -(y / d) - 1 <= (-y) / d <= 0,
{
    lemma_fundamental_div_mod(y, d);
    let q = y / d;
    let rm = y % d;
    lemma_div_pos_is_pos(y, d);
    if rm == 0 {
        assert(-y == d * (-q) + 0) by (nonlinear_arith)
            requires
                y == d * q + rm,
                rm == 0,
        ;
        lemma_fundamental_div_mod_converse(-y, d, -q, 0);
    } else {
        assert(-y == d * (-q - 1) + (d - rm)) by (nonlinear_arith)
            requires
                y == d * q + rm,
        ;
        lemma_fundamental_div_mod_converse(-y, d, -q - 1, d - rm);
    }
}

/// Floor division of an `i128` by a positive `i128`, matching `int` division.
pub fn floor_div_i128(a: i128, b: i128) -> (q: i128)
    requires
        b > 0,
        a > i128::MIN,
    ensures
        q == a as int / b as int,
{
    if a >= 0 {
        let q = ((a as u128) / (b as u128)) as i128;
        proof {
            lemma_div_is_ordered(a as int, i128::MAX as int, b as int);
            lemma_div_nonincreasing(i128::MAX as int, b as int);
            lemma_div_pos_is_pos(a as int, b as int);
        }
        q
    } else {
        let n = (-a) as u128;
        let d = b as u128;
        let q0 = (n + d - 1) / d;
        proof {
            let ni = n as int;
            let di = d as int;
            let qi = (ni + di - 1) / di;
            let ri = (ni + di - 1) % di;
            lemma_fundamental_div_mod(ni + di - 1, di);
            assert(ni + di - 1 == di * qi + ri);
            assert(a as int == (-qi) * di + (di - 1 - ri)) by (nonlinear_arith)
                requires
                    a as int == -ni,
                    ni + di - 1 == di * qi + ri,
            ;
            lemma_fundamental_div_mod_converse(a as int, di, -qi, di - 1 - ri);
            assert(qi >= 1) by {
                lemma_div_pos_is_pos(ni + di - 1, di);
                if qi == 0 {
                    assert(di * qi == 0) by (nonlinear_arith)
                        requires
                            qi == 0,
                    ;
                    assert(ri == ni + di - 1);
                    assert(ri < di);
                    assert(ni <= 0);
                    assert(false);
                }
            }
            assert(qi <= ni) by {
                lemma_div_nonincreasing(ni + di - 1, di);
                if qi > ni {
                    assert(di * qi >= qi) by (nonlinear_arith)
                        requires
                            di >= 1,
                            qi >= 0,
                    ;
                    assert(di * qi >= di * (ni + 1)) by (nonlinear_arith)
                        requires
                            di >= 1,
                            qi >= ni + 1,
                    ;
                    assert(di * (ni + 1) == di * ni + di) by (nonlinear_arith);
                    assert(di * ni >= ni) by (nonlinear_arith)
                        requires
                            di >= 1,
                            ni >= 1,
                    ;
                    assert(ri >= 0);
                    assert(false);
                }
            }
        }
        -(q0 as i128)
    }
}

/// Widening product of two `i64` values; never overflows `i128`.
pub fn wide_mul(a: i64, b: i64) -> (p: i128)
    ensures
        p == a as int * b as int,
{
    proof {
        lemma_mul_bound(a as int, b as int, 0x8000_0000_0000_0000, 0x8000_0000_0000_0000);
    }
    (a as i128) * (b as i128)
}

/// Floor square root of a `u128`, by binary search on the answer.
pub fn isqrt_u128(x: u128) -> (r: u128)
    ensures
        r as int == sqrt_floor(x as int),
        r < 0x1_0000_0000_0000_0000,
{
    let mut lo: u128 = 0;
    let mut hi: u128 = 0x1_0000_0000_0000_0000;
    proof {
        assert(hi as int * hi as int > x as int) by (nonlinear_arith)
            requires
                hi == 0x1_0000_0000_0000_0000,
                x <= u128::MAX,
        ;
    }
    while lo + 1 < hi
        invariant
            0 <= lo < hi <= 0x1_0000_0000_0000_0000,
            lo as int * lo as int <= x as int,
            hi as int * hi as int > x as int,
        decreases hi - lo,
    {
        let mid = lo + (hi - lo) / 2;
        assert(lo < mid < hi);
        proof {
            assert(mid as int * mid as int <= u128::MAX) by (nonlinear_arith)
                requires
                    0 <= mid < 0x1_0000_0000_0000_0000,
            ;
        }
        let sq = mid * mid;
        if sq <= x {
            lo = mid;
        } else {
            hi = mid;
        }
    }
    proof {
        assert(hi == lo + 1);
        assert(is_sqrt_floor(x as int, lo as int));
        lemma_sqrt_floor_unique(x as int, lo as int);
    }
    lo
}

/// A fixed-point number: the real value `raw / SCALE`.
#[derive(Clone, Copy, PartialEq, Eq, Structural, Debug)]
pub struct Fx {
    pub raw: i64,
}

impl Fx {
    pub fn zero() -> (r: Fx)
        ensures
            r.raw == 0,
    {
        Fx { raw: 0 }
    }

    pub fn one() -> (r: Fx)
        ensures
            r.raw == SCALE,
    {
        Fx { raw: SCALE }
    }

    pub fn from_raw(raw: i64) -> (r: Fx)
        ensures
            r.raw == raw,
    {
        Fx { raw }
    }

    /// The fixed-point image of a small integer.
    pub fn from_int(n: i32) -> (r: Fx)
        ensures
            r.raw == n as int * SCALE,
    {
        Fx { raw: (n as i64) * SCALE }
    }

    pub fn add(self, o: Fx) -> (r: Fx)
        requires
            fits_i64(self.raw + o.raw),
        ensures
            r.raw == self.raw + o.raw,
    {
        Fx { raw: self.raw + o.raw }
    }

    pub fn sub(self, o: Fx) -> (r: Fx)
        requires
            fits_i64(self.raw - o.raw),
        ensures
            r.raw == self.raw - o.raw,
    {
        Fx { raw: self.raw - o.raw }
    }

    pub fn neg(self) -> (r: Fx)
        requires
            self.raw > i64::MIN,
        ensures
            r.raw == -self.raw,
    {
        Fx { raw: -self.raw }
    }

    pub fn abs(self) -> (r: Fx)
        requires
            self.raw > i64::MIN,
        ensures
            r.raw == if self.raw >= 0 { self.raw as int } else { -self.raw as int },
    {
        if self.raw >= 0 {
            self
        } else {
            Fx { raw: -self.raw }
        }
    }

    /// Fixed-point product, rounded toward negative infinity.
    pub fn mul(self, o: Fx) -> (r: Fx)
        requires
            fits_i64(mul_raw(self.raw as int, o.raw as int)),
        ensures
            r.raw == mul_raw(self.raw as int, o.raw as int),
    {
        let p = wide_mul(self.raw, o.raw);
        let q = floor_div_i128(p, SCALE as i128);
        Fx { raw: q as i64 }
    }

    /// Fixed-point quotient by a positive divisor, rounded toward negative infinity.
    pub fn div(self, o: Fx) -> (r: Fx)
        requires
            o.raw > 0,
            fits_i64(div_raw(self.raw as int, o.raw as int)),
        ensures
            r.raw == div_raw(self.raw as int, o.raw as int),
    {
        let p = wide_mul(self.raw, SCALE);
        let q = floor_div_i128(p, o.raw as i128);
        Fx { raw: q as i64 }
    }

    /// Floor square root in fixed point: the raw result is `sqrt_floor(raw * SCALE)`.
    pub fn sqrt(self) -> (r: Fx)
        requires
            self.raw >= 0,
        ensures
            r.raw == sqrt_floor(self.raw as int * SCALE),
            r.raw >= 0,
    {
        let p = wide_mul(self.raw, SCALE);
        let s = isqrt_u128(p as u128);
        proof {
            lemma_sqrt_floor(self.raw as int * SCALE);
            let r = sqrt_floor(self.raw as int * SCALE);
            assert(r < 0x1_0000_0000_0000_0000);
            if r > 0xffff_ffff_ffff {
                assert(r * r > self.raw as int * SCALE) by (nonlinear_arith)
                    requires
                        r > 0xffff_ffff_ffff,
                        self.raw as int * SCALE <= 0x7fff_ffff_ffff_ffff * 65536,
                ;
                assert(false);
            }
        }
        Fx { raw: s as i64 }
    }

    pub fn min(self, o: Fx) -> (r: Fx)
        ensures
            r.raw == if self.raw <= o.raw { self.raw as int } else { o.raw as int },
    {
        if self.raw <= o.raw {
            self
        } else {
            o
        }
    }

    pub fn max(self, o: Fx) -> (r: Fx)
        ensures
            r.raw == if self.raw >= o.raw { self.raw as int } else { o.raw as int },
    {
        if self.raw >= o.raw {
            self
        } else {
            o
        }
    }

    /// Saturate into the closed range `[lo, hi]`.
    pub fn clamp(self, lo: Fx, hi: Fx) -> (r: Fx)
        requires
            lo.raw <= hi.raw,
        ensures
            r.raw == clamp_raw(self.raw as int, lo.raw as int, hi.raw as int),
    {
        if self.raw < lo.raw {
            lo
        } else if self.raw > hi.raw {
            hi
        } else {
            self
        }
    }
}

/// Saturation of `x` into `[lo, hi]`.
pub open spec fn clamp_raw(x: int, lo: int, hi: int) -> int {
    if x < lo {
        lo
    } else if x > hi {
        hi
    } else {
        x
    }
}

} // verus!
