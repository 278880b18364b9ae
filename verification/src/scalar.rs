//! Saturating fixed-point numbers with 32 fractional bits.
//!
//! A [`Scalar`] holds a signed 64-bit raw value that stands for
//! `raw / 2^32`. Every operation is total: a result that leaves the range
//! sticks to the nearest bound, products and quotients are rounded toward
//! zero, and the two bounds play the part of the infinities.
use std::ops::{Add, Div, Mul, Neg, Sub};
use vstd::prelude::*;

verus! {

/// The raw value of one.
pub const ONE_RAW: i64 = 0x1_0000_0000;

/// The raw value of one half.
pub const HALF_RAW: i64 = 0x8000_0000;

/// The largest raw value. Results are kept within `-MAX_RAW ..= MAX_RAW`.
pub const MAX_RAW: i64 = 0x7fff_ffff_ffff_ffff;

/// A fixed-point number: `raw` counts units of `2^-32`. Every operation
/// returns a number within `-MAX_RAW ..= MAX_RAW`, and so does `from_raw`.
#[derive(Clone, Copy, Debug, PartialEq, Eq, Structural)]
pub struct Scalar {
    pub raw: i64,
}

/// The distance of `x` from zero.
pub open spec fn magnitude(x: int) -> int {
    if x < 0 {
        -x
    } else {
        x
    }
}

/// `x` brought into the symmetric range of raw values.
pub open spec fn saturate(x: int) -> int {
    if x > MAX_RAW {
        MAX_RAW as int
    } else if x < -MAX_RAW {
        -(MAX_RAW as int)
    } else {
        x
    }
}

/// The quotient of `n` by `d`, rounded toward zero; zero where `d` is zero.
pub open spec fn trunc_quot(n: int, d: int) -> int {
    if d == 0 {
        0
    } else if (n < 0) == (d < 0) {
        magnitude(n) / magnitude(d)
    } else {
        -(magnitude(n) / magnitude(d))
    }
}

/// Whether `r` is the integer square root of `n`, rounded down.
pub open spec fn is_floor_sqrt(r: int, n: int) -> bool {
    0 <= r && r * r <= n && n < (r + 1) * (r + 1)
}

/// The integer square root of `n`, rounded down; zero for a negative `n`.
pub open spec fn floor_sqrt(n: int) -> int
    decreases n,
{
    if n <= 0 {
        0
    } else {
        let r = 2 * floor_sqrt(n / 4);
        if (r + 1) * (r + 1) <= n {
            r + 1
        } else {
            r
        }
    }
}

/// `floor_sqrt` meets its characterisation.
pub proof fn lemma_floor_sqrt(n: int)
    requires
        0 <= n,
    ensures
        is_floor_sqrt(floor_sqrt(n), n),
    decreases n,
{
    if n > 0 {
        let m = n / 4;
        let s = floor_sqrt(m);
        lemma_floor_sqrt(m);
        assert(4 * (s * s) <= n && n < 4 * ((s + 1) * (s + 1)));
        assert((2 * s) * (2 * s) == 4 * (s * s)) by (nonlinear_arith);
        assert((2 * s + 2) * (2 * s + 2) == 4 * ((s + 1) * (s + 1))) by (nonlinear_arith);
        assert((2 * s + 1 + 1) == 2 * s + 2);
    }
}

/// At most one number is the rounded-down square root of `n`.
pub proof fn lemma_floor_sqrt_unique(r: int, s: int, n: int)
    requires
        is_floor_sqrt(r, n),
        is_floor_sqrt(s, n),
    ensures
        r == s,
{
    assert(r < s ==> (r + 1) * (r + 1) <= s * s) by (nonlinear_arith)
        requires
            0 <= r,
            0 <= s,
    ;
    assert(s < r ==> (s + 1) * (s + 1) <= r * r) by (nonlinear_arith)
        requires
            0 <= r,
            0 <= s,
    ;
}

/// The square root of a scalar is never negative and fits the grid as it
/// is.
pub proof fn lemma_sqrt_range(x: Scalar)
    ensures
        0 <= x.spec_sqrt().raw < 0x1_0000_0000_0000,
        x.spec_sqrt().raw == floor_sqrt(x.raw * ONE_RAW),
{
    let n = x.raw * ONE_RAW;
    let r = floor_sqrt(n);
    if n > 0 {
        lemma_floor_sqrt(n);
        assert(r < 0x1_0000_0000_0000) by (nonlinear_arith)
            requires
                0 <= r,
                r * r <= n,
                n < 0x1_0000_0000_0000 * 0x1_0000_0000_0000,
        ;
    }
}

/// The magnitude of a product is the product of the magnitudes, and the
/// product is negative exactly when the signs differ and neither is zero.
pub proof fn lemma_product_sign(a: int, b: int)
    ensures
        magnitude(a * b) == magnitude(a) * magnitude(b),
        a * b < 0 <==> (a < 0) != (b < 0) && a != 0 && b != 0,
{
    assert(magnitude(a * b) == magnitude(a) * magnitude(b) && (a * b < 0 <==> (a < 0) != (b < 0)
        && a != 0 && b != 0)) by (nonlinear_arith);
}

/// Zero times anything is zero.
pub proof fn lemma_mul_by_zero(x: Scalar)
    ensures
        x * Scalar::spec_zero() == Scalar::spec_zero(),
        Scalar::spec_zero() * x == Scalar::spec_zero(),
{
    assert(x.raw * 0 == 0 && 0 * x.raw == 0) by (nonlinear_arith);
}

/// One is neutral in products and quotients, for every number of the range.
pub proof fn lemma_one_is_neutral(x: Scalar)
    requires
        -MAX_RAW <= x.raw,
    ensures
        x * Scalar::spec_one() == x,
        Scalar::spec_one() * x == x,
        x.spec_div(Scalar::spec_one()) == x,
{
    let k = ONE_RAW as int;
    lemma_product_sign(x.raw as int, k);
    lemma_product_sign(k, x.raw as int);
    vstd::arithmetic::div_mod::lemma_div_multiples_vanish(magnitude(x.raw as int), k);
    assert(magnitude(x.raw as int) * k == k * magnitude(x.raw as int)) by (nonlinear_arith);
    assert(x.raw * k == k * x.raw) by (nonlinear_arith);
}

/// A product keeps its value where both factors change their sign.
pub proof fn lemma_mul_of_negations(x: Scalar, y: Scalar)
    requires
        -MAX_RAW <= x.raw,
        -MAX_RAW <= y.raw,
    ensures
        x.spec_neg() * y.spec_neg() == x * y,
{
    assert((-x.raw) * (-y.raw) == x.raw * y.raw) by (nonlinear_arith);
}

/// The square of a number with at most 16 fractional bits is exact, and
/// its square root gives the magnitude back.
pub proof fn lemma_square_of_coarse(x: Scalar)
    requires
        x.raw % 0x1_0000 == 0,
        -0x8000_0000_0000 <= x.raw <= 0x8000_0000_0000,
    ensures
        (x * x).raw * ONE_RAW == x.raw * x.raw,
        (x * x).spec_sqrt().raw == magnitude(x.raw as int),
{
    let k = ONE_RAW as int;
    let h = x.raw / 0x1_0000;
    let m = magnitude(x.raw as int);
    assert(x.raw == h * 0x1_0000);
    assert(x.raw * x.raw == (h * h) * k) by (nonlinear_arith)
        requires
            x.raw == h * 0x1_0000,
            k == 0x1_0000 * 0x1_0000,
    ;
    assert(0 <= h * h <= 0x8000_0000 * 0x8000_0000) by (nonlinear_arith)
        requires
            -0x8000_0000 <= h <= 0x8000_0000,
    ;
    lemma_product_sign(x.raw as int, x.raw as int);
    vstd::arithmetic::div_mod::lemma_div_multiples_vanish(h * h, k);
    assert((x * x).raw == h * h);
    assert(m * m == x.raw * x.raw) by (nonlinear_arith)
        requires
            m == x.raw || m == -x.raw,
    ;
    assert(is_floor_sqrt(m, (h * h) * k)) by (nonlinear_arith)
        requires
            0 <= m,
            m * m == (h * h) * k,
    ;
    lemma_floor_sqrt((h * h) * k);
    lemma_floor_sqrt_unique(m, floor_sqrt((h * h) * k), (h * h) * k);
}

/// A fraction of a number that is not negative lies between zero and the
/// number, and below it where the number is positive.
pub proof fn lemma_fraction_of(x: Scalar, u: Scalar)
    requires
        0 <= x.raw,
        0 <= u.raw < ONE_RAW,
    ensures
        0 <= (x * u).raw <= x.raw,
        x.raw > 0 ==> (x * u).raw < x.raw,
{
    let k = ONE_RAW as int;
    let p = x.raw * u.raw;
    assert(0 <= p <= x.raw * (k - 1)) by (nonlinear_arith)
        requires
            p == x.raw * u.raw,
            0 <= x.raw,
            0 <= u.raw <= k - 1,
    ;
    assert(p / k <= x.raw && (x.raw > 0 ==> p / k < x.raw)) by (nonlinear_arith)
        requires
            0 <= p <= x.raw * (k - 1),
            k > 1,
            0 <= x.raw,
    ;
    assert(0 <= p / k) by (nonlinear_arith)
        requires
            0 <= p,
            k > 0,
    ;
}

/// The integer square root of `n`, rounded down, by bisection.
pub fn integer_sqrt(n: u128) -> (r: u128)
    ensures
        r == floor_sqrt(n as int),
        r < 0x1_0000_0000_0000_0000,
{
    let mut lo: u128 = 0;
    let mut hi: u128 = 0x1_0000_0000_0000_0000;
    assert(n < hi * hi) by (nonlinear_arith)
        requires
            n < 0x1_0000_0000_0000_0000 * 0x1_0000_0000_0000_0000,
            hi == 0x1_0000_0000_0000_0000,
    ;
    while hi - lo > 1
        invariant
            lo < hi <= 0x1_0000_0000_0000_0000,
            lo * lo <= n,
            n < hi * hi,
        decreases hi - lo,
    {
        let mid: u128 = lo + (hi - lo) / 2;
        assert(mid * mid < 0x1_0000_0000_0000_0000 * 0x1_0000_0000_0000_0000) by (nonlinear_arith)
            requires
                0 <= mid < 0x1_0000_0000_0000_0000,
        ;
        if mid * mid <= n {
            lo = mid;
        } else {
            hi = mid;
        }
    }
    proof {
        lemma_floor_sqrt(n as int);
        lemma_floor_sqrt_unique(lo as int, floor_sqrt(n as int), n as int);
    }
    lo
}

/// The magnitude of a raw value, widened.
pub fn magnitude_of(x: i64) -> (m: u128)
    ensures
        m == magnitude(x as int),
{
    if x < 0 {
        (-(x as i128)) as u128
    } else {
        x as u128
    }
}

/// The scalar of the given sign and magnitude, saturated.
pub fn from_magnitude(negative: bool, m: u128) -> (r: Scalar)
    ensures
        r.raw == saturate(
            if negative {
                -(m as int)
            } else {
                m as int
            },
        ),
{
    if m > MAX_RAW as u128 {
        if negative {
            Scalar { raw: -MAX_RAW }
        } else {
            Scalar { raw: MAX_RAW }
        }
    } else if negative {
        Scalar { raw: -(m as i64) }
    } else {
        Scalar { raw: m as i64 }
    }
}

impl Scalar {
    /// Whether the number lies within the range that every operation keeps
    /// to, `-MAX_RAW ..= MAX_RAW`. The one raw value below it can only be
    /// written down, not computed; the laws of the arithmetic are stated for
    /// numbers within the range.
    pub open spec fn spec_in_range(self) -> bool {
        -MAX_RAW <= self.raw
    }

    /// Zero.
    pub open spec fn spec_zero() -> Scalar {
        Scalar { raw: 0 }
    }

    /// One.
    pub open spec fn spec_one() -> Scalar {
        Scalar { raw: ONE_RAW }
    }

    /// The sum, saturated.
    pub open spec fn spec_add(self, rhs: Scalar) -> Scalar {
        Scalar { raw: saturate(self.raw + rhs.raw) as i64 }
    }

    /// The difference, saturated.
    pub open spec fn spec_sub(self, rhs: Scalar) -> Scalar {
        Scalar { raw: saturate(self.raw - rhs.raw) as i64 }
    }

    /// The product, rounded toward zero and saturated.
    pub open spec fn spec_mul(self, rhs: Scalar) -> Scalar {
        Scalar { raw: saturate(trunc_quot(self.raw * rhs.raw, ONE_RAW as int)) as i64 }
    }

    /// The quotient, rounded toward zero and saturated. A division by zero
    /// gives the bound on the side of the dividend, and zero for zero.
    pub open spec fn spec_div(self, rhs: Scalar) -> Scalar {
        Scalar {
            raw: if rhs.raw == 0 {
                if self.raw > 0 {
                    MAX_RAW
                } else if self.raw < 0 {
                    (-MAX_RAW) as i64
                } else {
                    0
                }
            } else {
                saturate(trunc_quot(self.raw * ONE_RAW, rhs.raw as int)) as i64
            },
        }
    }

    /// The negation, saturated.
    pub open spec fn spec_neg(self) -> Scalar {
        Scalar { raw: saturate(-self.raw) as i64 }
    }

    /// The square root, rounded down to the grid; zero for a negative number.
    pub open spec fn spec_sqrt(self) -> Scalar {
        Scalar { raw: floor_sqrt(self.raw * ONE_RAW) as i64 }
    }

    /// The magnitude, saturated.
    pub open spec fn spec_abs(self) -> Scalar {
        Scalar { raw: saturate(magnitude(self.raw as int)) as i64 }
    }

    /// The smaller of the two.
    pub open spec fn spec_min(self, other: Scalar) -> Scalar {
        if other.raw < self.raw {
            other
        } else {
            self
        }
    }

    /// The whole number `n`, saturated.
    pub open spec fn spec_from_int(n: int) -> Scalar {
        Scalar { raw: saturate(n * ONE_RAW) as i64 }
    }

    /// The whole part as a byte: zero below zero, 255 from 255 on.
    pub open spec fn spec_to_u8(self) -> u8 {
        if self.raw < 0 {
            0u8
        } else if self.raw / ONE_RAW > 255 {
            255u8
        } else {
            (self.raw / ONE_RAW) as u8
        }
    }

    /// One step of a sine or cosine series in nested form:
    /// `1 - (x2 * acc) / k`.
    pub open spec fn spec_series_step(x2: Scalar, acc: Scalar, k: int) -> Scalar {
        Scalar::spec_from_int(1) - (x2 * acc).spec_div(Scalar::spec_from_int(k))
    }

    /// The sine of an angle in radians, by its series up to the power 15,
    /// in nested form.
    pub open spec fn spec_sin(self) -> Scalar {
        let x2 = self * self;
        let s7 = Scalar::spec_series_step(x2, Scalar::spec_from_int(1), 210);
        let s6 = Scalar::spec_series_step(x2, s7, 156);
        let s5 = Scalar::spec_series_step(x2, s6, 110);
        let s4 = Scalar::spec_series_step(x2, s5, 72);
        let s3 = Scalar::spec_series_step(x2, s4, 42);
        let s2 = Scalar::spec_series_step(x2, s3, 20);
        let s1 = Scalar::spec_series_step(x2, s2, 6);
        self * s1
    }

    /// The cosine of an angle in radians, by its series up to the power 16,
    /// in nested form.
    pub open spec fn spec_cos(self) -> Scalar {
        let x2 = self * self;
        let c8 = Scalar::spec_series_step(x2, Scalar::spec_from_int(1), 240);
        let c7 = Scalar::spec_series_step(x2, c8, 182);
        let c6 = Scalar::spec_series_step(x2, c7, 132);
        let c5 = Scalar::spec_series_step(x2, c6, 90);
        let c4 = Scalar::spec_series_step(x2, c5, 56);
        let c3 = Scalar::spec_series_step(x2, c4, 30);
        let c2 = Scalar::spec_series_step(x2, c3, 12);
        Scalar::spec_series_step(x2, c2, 2)
    }

    /// The tangent of an angle in radians: the sine by the cosine.
    pub open spec fn spec_tan(self) -> Scalar {
        self.spec_sin().spec_div(self.spec_cos())
    }

    /// The number with the given raw value, brought into the range of the
    /// numbers: the one raw value below the range, `i64::MIN`, gives the
    /// lower bound.
    pub fn from_raw(raw: i64) -> (r: Scalar)
        ensures
            r.raw == saturate(raw as int),
            r.spec_in_range(),
    {
        if raw < -MAX_RAW {
            Scalar { raw: -MAX_RAW }
        } else {
            Scalar { raw }
        }
    }

    /// The whole number `n`.
    pub fn from_int(n: i32) -> (r: Scalar)
        ensures
            r == Scalar::spec_from_int(n as int),
    {
        assert(-0x8000_0000 * 0x1_0000_0000 <= n * ONE_RAW <= 0x8000_0000 * 0x1_0000_0000)
            by (nonlinear_arith)
            requires
                -0x8000_0000 <= n <= 0x8000_0000,
                ONE_RAW == 0x1_0000_0000,
        ;
        let wide: i128 = (n as i128) * (ONE_RAW as i128);
        if wide < -(MAX_RAW as i128) {
            Scalar { raw: -MAX_RAW }
        } else {
            Scalar { raw: wide as i64 }
        }
    }

    /// The whole part as a byte, as a saturating cast gives it.
    pub fn to_u8(self) -> (b: u8)
        ensures
            b == self.spec_to_u8(),
    {
        if self.raw < 0 {
            0
        } else {
            let whole: i64 = self.raw / ONE_RAW;
            if whole > 255 {
                255
            } else {
                whole as u8
            }
        }
    }

    /// The square root, rounded down to the grid.
    pub fn sqrt(self) -> (r: Scalar)
        ensures
            r == self.spec_sqrt(),
    {
        if self.raw <= 0 {
            assert(floor_sqrt(self.raw * ONE_RAW) == 0);
            return Scalar { raw: 0 };
        }
        assert(self.raw * ONE_RAW <= 0x8000_0000_0000_0000 * 0x1_0000_0000) by (nonlinear_arith)
            requires
                0 < self.raw <= 0x8000_0000_0000_0000,
                ONE_RAW == 0x1_0000_0000,
        ;
        let root: u128 = integer_sqrt((self.raw as u128) * (ONE_RAW as u128));
        proof {
            lemma_sqrt_range(self);
        }
        Scalar { raw: root as i64 }
    }

    /// One step of a sine or cosine series in nested form.
    fn series_step(x2: Scalar, acc: Scalar, k: i32) -> (r: Scalar)
        ensures
            r == Scalar::spec_series_step(x2, acc, k as int),
    {
        Scalar::from_int(1) - (x2 * acc) / Scalar::from_int(k)
    }

    /// The sine of an angle in radians, meant for angles up to a quarter
    /// turn either way.
    pub fn sin(self) -> (r: Scalar)
        ensures
            r == self.spec_sin(),
    {
        let x2 = self * self;
        let s7 = Scalar::series_step(x2, Scalar::from_int(1), 210);
        let s6 = Scalar::series_step(x2, s7, 156);
        let s5 = Scalar::series_step(x2, s6, 110);
        let s4 = Scalar::series_step(x2, s5, 72);
        let s3 = Scalar::series_step(x2, s4, 42);
        let s2 = Scalar::series_step(x2, s3, 20);
        let s1 = Scalar::series_step(x2, s2, 6);
        self * s1
    }

    /// The cosine of an angle in radians, meant for angles up to a quarter
    /// turn either way.
    pub fn cos(self) -> (r: Scalar)
        ensures
            r == self.spec_cos(),
    {
        let x2 = self * self;
        let c8 = Scalar::series_step(x2, Scalar::from_int(1), 240);
        let c7 = Scalar::series_step(x2, c8, 182);
        let c6 = Scalar::series_step(x2, c7, 132);
        let c5 = Scalar::series_step(x2, c6, 90);
        let c4 = Scalar::series_step(x2, c5, 56);
        let c3 = Scalar::series_step(x2, c4, 30);
        let c2 = Scalar::series_step(x2, c3, 12);
        Scalar::series_step(x2, c2, 2)
    }

    /// The tangent of an angle in radians, meant for angles below a quarter
    /// turn either way.
    pub fn tan(self) -> (r: Scalar)
        ensures
            r == self.spec_tan(),
    {
        self.sin() / self.cos()
    }

    /// The magnitude.
    pub fn abs(self) -> (r: Scalar)
        ensures
            r == self.spec_abs(),
    {
        from_magnitude(false, magnitude_of(self.raw))
    }

    /// The smaller of the two.
    pub fn min(self, other: Scalar) -> (r: Scalar)
        ensures
            r == self.spec_min(other),
    {
        if other.raw < self.raw {
            other
        } else {
            self
        }
    }
}

impl Default for Scalar {
    /// Zero.
    fn default() -> (r: Scalar)
        ensures
            r.raw == 0,
    {
        Scalar { raw: 0 }
    }
}

impl Add for Scalar {
    type Output = Scalar;

    fn add(self, rhs: Scalar) -> (r: Scalar)
        ensures
            r == self.spec_add(rhs),
    {
        let wide: i128 = self.raw as i128 + rhs.raw as i128;
        if wide > MAX_RAW as i128 {
            Scalar { raw: MAX_RAW }
        } else if wide < -(MAX_RAW as i128) {
            Scalar { raw: -MAX_RAW }
        } else {
            Scalar { raw: wide as i64 }
        }
    }
}

impl vstd::std_specs::ops::AddSpecImpl for Scalar {
    open spec fn obeys_add_spec() -> bool {
        true
    }

    open spec fn add_req(self, rhs: Scalar) -> bool {
        true
    }

    open spec fn add_spec(self, rhs: Scalar) -> Scalar {
        self.spec_add(rhs)
    }
}

impl Sub for Scalar {
    type Output = Scalar;

    fn sub(self, rhs: Scalar) -> (r: Scalar)
        ensures
            r == self.spec_sub(rhs),
    {
        let wide: i128 = self.raw as i128 - rhs.raw as i128;
        if wide > MAX_RAW as i128 {
            Scalar { raw: MAX_RAW }
        } else if wide < -(MAX_RAW as i128) {
            Scalar { raw: -MAX_RAW }
        } else {
            Scalar { raw: wide as i64 }
        }
    }
}

impl vstd::std_specs::ops::SubSpecImpl for Scalar {
    open spec fn obeys_sub_spec() -> bool {
        true
    }

    open spec fn sub_req(self, rhs: Scalar) -> bool {
        true
    }

    open spec fn sub_spec(self, rhs: Scalar) -> Scalar {
        self.spec_sub(rhs)
    }
}

impl Mul for Scalar {
    type Output = Scalar;

    fn mul(self, rhs: Scalar) -> (r: Scalar)
        ensures
            r == self.spec_mul(rhs),
    {
        let ma: u128 = magnitude_of(self.raw);
        let mb: u128 = magnitude_of(rhs.raw);
        proof {
            lemma_product_sign(self.raw as int, rhs.raw as int);
            assert(ma * mb <= 0x8000_0000_0000_0000 * 0x8000_0000_0000_0000) by (nonlinear_arith)
                requires
                    0 <= ma <= 0x8000_0000_0000_0000,
                    0 <= mb <= 0x8000_0000_0000_0000,
            ;
        }
        let q: u128 = (ma * mb) / (ONE_RAW as u128);
        from_magnitude((self.raw < 0) != (rhs.raw < 0), q)
    }
}

impl vstd::std_specs::ops::MulSpecImpl for Scalar {
    open spec fn obeys_mul_spec() -> bool {
        true
    }

    open spec fn mul_req(self, rhs: Scalar) -> bool {
        true
    }

    open spec fn mul_spec(self, rhs: Scalar) -> Scalar {
        self.spec_mul(rhs)
    }
}

impl Div for Scalar {
    type Output = Scalar;

    fn div(self, rhs: Scalar) -> (r: Scalar)
        ensures
            r == self.spec_div(rhs),
    {
        if rhs.raw == 0 {
            if self.raw > 0 {
                Scalar { raw: MAX_RAW }
            } else if self.raw < 0 {
                Scalar { raw: -MAX_RAW }
            } else {
                Scalar { raw: 0 }
            }
        } else {
            let ma: u128 = magnitude_of(self.raw);
            let mb: u128 = magnitude_of(rhs.raw);
            proof {
                lemma_product_sign(self.raw as int, ONE_RAW as int);
                assert(ma * ONE_RAW <= 0x8000_0000_0000_0000 * 0x1_0000_0000) by (nonlinear_arith)
                    requires
                        0 <= ma <= 0x8000_0000_0000_0000,
                        ONE_RAW == 0x1_0000_0000,
                ;
            }
            let q: u128 = (ma * (ONE_RAW as u128)) / mb;
            from_magnitude((self.raw < 0) != (rhs.raw < 0), q)
        }
    }
}

impl vstd::std_specs::ops::DivSpecImpl for Scalar {
    open spec fn obeys_div_spec() -> bool {
        true
    }

    open spec fn div_req(self, rhs: Scalar) -> bool {
        true
    }

    open spec fn div_spec(self, rhs: Scalar) -> Scalar {
        self.spec_div(rhs)
    }
}

impl Neg for Scalar {
    type Output = Scalar;

    fn neg(self) -> (r: Scalar)
        ensures
            r == self.spec_neg(),
    {
        if self.raw < -MAX_RAW {
            Scalar { raw: MAX_RAW }
        } else {
            Scalar { raw: -self.raw }
        }
    }
}

impl vstd::std_specs::ops::NegSpecImpl for Scalar {
    open spec fn obeys_neg_spec() -> bool {
        true
    }

    open spec fn neg_req(self) -> bool {
        true
    }

    open spec fn neg_spec(self) -> Scalar {
        self.spec_neg()
    }
}

} // verus!
