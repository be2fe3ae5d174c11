//! Decimal fixed-point numbers: a value is a whole number of billionths,
//! held in 64 bits, and every operation saturates instead of overflowing.

use vstd::prelude::*;

verus! {

/// Raw units in one whole.
pub const SCALE: i64 = 1_000_000_000;

/// How many binary places of the fractional part of an exponent count: the
/// last of them is worth less than a billionth.
pub const FRACTION_BITS: u32 = 30;

/// By how many billionths at most the root of a rounded square falls short
/// of the number that was squared: the root of a billionth, less one.
pub const ROOT_SLACK: i64 = 31_622;

/// Largest raw value whose square does not saturate: ninety thousand.
pub const MAX_SQUARED: i64 = 90_000 * SCALE;

/// The nearest raw value that 64 bits can hold.
pub open spec fn saturate(x: int) -> int {
    if x < i64::MIN {
        i64::MIN as int
    } else if x > i64::MAX {
        i64::MAX as int
    } else {
        x
    }
}

/// The quotient of `n` by `d`, rounded toward zero.
pub open spec fn quot(n: int, d: int) -> int
    recommends
        d != 0,
{
    if d > 0 {
        if n >= 0 {
            n / d
        } else {
            -((-n) / d)
        }
    } else {
        if n >= 0 {
            -(n / (-d))
        } else {
            (-n) / (-d)
        }
    }
}

/// `r` is the least natural number whose square reaches `n`.
pub open spec fn is_root_up(n: int, r: int) -> bool {
    &&& r >= 0
    &&& r * r >= n
    &&& r > 0 ==> (r - 1) * (r - 1) < n
}

/// The square root of `n`, rounded up; zero for a negative `n`.
pub open spec fn root_up(n: int) -> int {
    choose|r: int| is_root_up(n, r)
}

/// A fixed-point number; `raw` counts billionths.
#[derive(Clone, Copy, Debug, PartialEq, Eq, Structural)]
pub struct Scalar {
    pub raw: i64,
}

impl View for Scalar {
    type V = int;

    /// The raw value.
    open spec fn view(&self) -> int {
        self.raw as int
    }
}

impl Scalar {
    /// The number whose raw value is `v`, saturated.
    pub open spec fn of(v: int) -> Scalar {
        Scalar { raw: saturate(v) as i64 }
    }

    /// The sum, saturated.
    pub open spec fn spec_add(self, rhs: Scalar) -> Scalar {
        Scalar::of(self@ + rhs@)
    }

    /// The difference, saturated.
    pub open spec fn spec_sub(self, rhs: Scalar) -> Scalar {
        Scalar::of(self@ - rhs@)
    }

    /// The negation, saturated.
    pub open spec fn spec_neg(self) -> Scalar {
        Scalar::of(-self@)
    }

    /// The product, rounded toward zero to a billionth and saturated.
    pub open spec fn spec_mul(self, rhs: Scalar) -> Scalar {
        Scalar::of(quot(self@ * rhs@, SCALE as int))
    }

    /// The ratio, rounded toward zero to a billionth and saturated. A nonzero
    /// value over zero is the extreme of its sign; zero over zero is zero.
    pub open spec fn spec_div(self, rhs: Scalar) -> Scalar {
        if rhs@ == 0 {
            if self@ > 0 {
                Scalar { raw: i64::MAX }
            } else if self@ < 0 {
                Scalar { raw: i64::MIN }
            } else {
                Scalar { raw: 0 }
            }
        } else {
            Scalar::of(quot(self@ * SCALE, rhs@))
        }
    }

    /// The square root, rounded up to a billionth; zero below zero.
    pub open spec fn spec_sqrt(self) -> Scalar {
        Scalar::of(root_up(self@ * SCALE))
    }

    /// The power with a whole exponent, by squaring: every product is rounded
    /// as [`Scalar::spec_mul`] rounds.
    pub open spec fn spec_powi(self, n: nat) -> Scalar
        decreases n,
    {
        if n == 0 {
            Scalar { raw: SCALE }
        } else {
            let half = self.spec_powi(n / 2);
            let square = half.spec_mul(half);
            if n % 2 == 1 {
                square.spec_mul(self)
            } else {
                square
            }
        }
    }

    /// The power with a fractional exponent, by repeated square roots. The
    /// exponent is `fraction` billionths, below one; `self` stands for the
    /// base after the roots taken so far, and `bits` binary places of the
    /// exponent are still to come. Each place that is set multiplies in the
    /// next root.
    pub open spec fn spec_pow_fraction(self, fraction: int, bits: nat) -> Scalar
        decreases bits,
    {
        if bits == 0 {
            Scalar { raw: SCALE }
        } else {
            let root = self.spec_sqrt();
            if 2 * fraction >= SCALE {
                root.spec_mul(root.spec_pow_fraction(2 * fraction - SCALE, (bits - 1) as nat))
            } else {
                root.spec_pow_fraction(2 * fraction, (bits - 1) as nat)
            }
        }
    }

    /// The power with an exponent of `exponent` billionths, not below zero:
    /// the whole part by squaring, times the fractional part by square roots.
    pub open spec fn spec_pow_raw(self, exponent: int) -> Scalar {
        self.spec_powi((exponent / (SCALE as int)) as nat).spec_mul(
            self.spec_pow_fraction(exponent % (SCALE as int), FRACTION_BITS as nat),
        )
    }

    /// The power with any exponent. An exponent below zero gives the
    /// reciprocal of the power with the opposite exponent.
    pub open spec fn spec_powf(self, exponent: Scalar) -> Scalar {
        if exponent@ < 0 {
            (Scalar { raw: SCALE }).spec_div(self.spec_pow_raw(exponent.spec_neg()@))
        } else {
            self.spec_pow_raw(exponent@)
        }
    }

    /// The smaller of the two.
    pub open spec fn spec_min(self, rhs: Scalar) -> Scalar {
        if self@ <= rhs@ {
            self
        } else {
            rhs
        }
    }

    /// The larger of the two.
    pub open spec fn spec_max(self, rhs: Scalar) -> Scalar {
        if self@ >= rhs@ {
            self
        } else {
            rhs
        }
    }

    /// The absolute value, saturated.
    pub open spec fn spec_abs(self) -> Scalar {
        if self@ >= 0 {
            self
        } else {
            self.spec_neg()
        }
    }

    /// The largest whole number not above half of the value.
    pub open spec fn spec_half_floor(self) -> int {
        self@ / (2 * SCALE)
    }

    /// The value held to the unit interval and mapped to a byte, rounding
    /// down: zero gives 0 and one gives 255.
    pub open spec fn spec_to_channel(self) -> u8 {
        if self@ <= 0 {
            0u8
        } else if self@ >= SCALE {
            255u8
        } else {
            ((255 * self@) / (SCALE as int)) as u8
        }
    }

    /// Zero.
    pub fn zero() -> (r: Scalar)
        ensures
            r@ == 0,
    {
        Scalar { raw: 0 }
    }

    /// One.
    pub fn one() -> (r: Scalar)
        ensures
            r@ == SCALE,
    {
        Scalar { raw: SCALE }
    }

    /// The whole number `n`.
    pub fn from_int(n: i64) -> (r: Scalar)
        ensures
            r == Scalar::of(n * SCALE),
    {
        assert(-0x4000_0000_0000_0000_0000_0000 <= n * SCALE <= 0x4000_0000_0000_0000_0000_0000)
            by (nonlinear_arith)
            requires
                -0x8000_0000_0000_0000 <= n <= 0x8000_0000_0000_0000,
                SCALE == 1_000_000_000,
        ;
        Scalar::from_wide((n as i128) * (SCALE as i128))
    }

    /// The number whose raw value is `v`, saturated.
    fn from_wide(v: i128) -> (r: Scalar)
        ensures
            r == Scalar::of(v as int),
    {
        if v > i64::MAX as i128 {
            Scalar { raw: i64::MAX }
        } else if v < i64::MIN as i128 {
            Scalar { raw: i64::MIN }
        } else {
            Scalar { raw: v as i64 }
        }
    }

    /// The number with the given sign and raw magnitude, saturated.
    pub fn from_sign_magnitude(negative: bool, m: u128) -> (r: Scalar)
        ensures
            r == Scalar::of(
                if negative {
                    -(m as int)
                } else {
                    m as int
                },
            ),
    {
        if negative {
            if m > 0x8000_0000_0000_0000u128 {
                Scalar { raw: i64::MIN }
            } else {
                Scalar { raw: (-(m as i128)) as i64 }
            }
        } else {
            if m > 0x7fff_ffff_ffff_ffffu128 {
                Scalar { raw: i64::MAX }
            } else {
                Scalar { raw: m as i64 }
            }
        }
    }

    /// Adds, saturating at the ends of the range.
    #[verifier::when_used_as_spec(spec_add)]
    pub fn add(self, rhs: Scalar) -> (r: Scalar)
        ensures
            r == self.spec_add(rhs),
    {
        Scalar::from_wide(self.raw as i128 + rhs.raw as i128)
    }

    /// Subtracts, saturating at the ends of the range.
    #[verifier::when_used_as_spec(spec_sub)]
    pub fn sub(self, rhs: Scalar) -> (r: Scalar)
        ensures
            r == self.spec_sub(rhs),
    {
        Scalar::from_wide(self.raw as i128 - rhs.raw as i128)
    }

    /// Negates; the least value gives the greatest.
    #[verifier::when_used_as_spec(spec_neg)]
    pub fn neg(self) -> (r: Scalar)
        ensures
            r == self.spec_neg(),
    {
        Scalar::from_wide(-(self.raw as i128))
    }

    /// Multiplies, rounding toward zero and saturating.
    #[verifier::when_used_as_spec(spec_mul)]
    pub fn mul(self, rhs: Scalar) -> (r: Scalar)
        ensures
            r == self.spec_mul(rhs),
    {
        let a: u128 = magnitude(self.raw);
        let b: u128 = magnitude(rhs.raw);
        assert(a * b <= 0x4000_0000_0000_0000_0000_0000_0000_0000u128) by (nonlinear_arith)
            requires
                a <= 0x8000_0000_0000_0000u128,
                b <= 0x8000_0000_0000_0000u128,
        ;
        let q: u128 = (a * b) / (SCALE as u128);
        let negative: bool = (self.raw < 0) != (rhs.raw < 0);
        proof {
            assert(self@ * rhs@ == if negative {
                -(a * b)
            } else {
                (a * b) as int
            }) by (nonlinear_arith)
                requires
                    a == (if self@ >= 0 {
                        self@
                    } else {
                        -self@
                    }),
                    b == (if rhs@ >= 0 {
                        rhs@
                    } else {
                        -rhs@
                    }),
                    negative == ((self@ < 0) != (rhs@ < 0)),
            ;
        }
        Scalar::from_sign_magnitude(negative, q)
    }

    /// Divides, rounding toward zero and saturating; division by zero is
    /// defined and does not fail.
    #[verifier::when_used_as_spec(spec_div)]
    pub fn div(self, rhs: Scalar) -> (r: Scalar)
        ensures
            r == self.spec_div(rhs),
    {
        if rhs.raw == 0 {
            if self.raw > 0 {
                Scalar { raw: i64::MAX }
            } else if self.raw < 0 {
                Scalar { raw: i64::MIN }
            } else {
                Scalar { raw: 0 }
            }
        } else {
            let a: u128 = magnitude(self.raw);
            let b: u128 = magnitude(rhs.raw);
            assert(a * SCALE <= 0x4000_0000_0000_0000_0000_0000) by (nonlinear_arith)
                requires
                    a <= 0x8000_0000_0000_0000u128,
                    SCALE == 1_000_000_000,
            ;
            let q: u128 = (a * (SCALE as u128)) / b;
            let negative: bool = (self.raw < 0) != (rhs.raw < 0);
            Scalar::from_sign_magnitude(negative, q)
        }
    }

    /// The square root, rounded up; zero for a negative number.
    #[verifier::when_used_as_spec(spec_sqrt)]
    pub fn sqrt(self) -> (r: Scalar)
        ensures
            r == self.spec_sqrt(),
    {
        if self.raw <= 0 {
            proof {
                lemma_root_up_is(self@ * SCALE, 0);
            }
            Scalar { raw: 0 }
        } else {
            let n: u128 = (self.raw as u128) * (SCALE as u128);
            let root: u128 = root_up_u128(n);
            Scalar::from_sign_magnitude(false, root)
        }
    }

    /// Raises to a whole power by repeated squaring.
    pub fn powi(self, n: u64) -> (r: Scalar)
        ensures
            r == self.spec_powi(n as nat),
        decreases n,
    {
        if n == 0 {
            Scalar { raw: SCALE }
        } else {
            let half: Scalar = self.powi(n / 2);
            let square: Scalar = half.mul(half);
            if n % 2 == 1 {
                square.mul(self)
            } else {
                square
            }
        }
    }

    /// Raises to a fractional power of `fraction` billionths, below one, of
    /// which `bits` binary places count.
    pub fn pow_fraction(self, fraction: i64, bits: u32) -> (r: Scalar)
        requires
            0 <= fraction < SCALE,
        ensures
            r == self.spec_pow_fraction(fraction as int, bits as nat),
        decreases bits,
    {
        if bits == 0 || fraction == 0 {
            proof {
                lemma_pow_fraction_of_nothing(self, bits as nat);
            }
            Scalar { raw: SCALE }
        } else {
            let root: Scalar = self.sqrt();
            let doubled: i64 = 2 * fraction;
            if doubled >= SCALE {
                root.mul(root.pow_fraction(doubled - SCALE, bits - 1))
            } else {
                root.pow_fraction(doubled, bits - 1)
            }
        }
    }

    /// Raises to any power: the whole part of the exponent by squaring, the
    /// fractional part by square roots, and the reciprocal for an exponent
    /// below zero.
    #[verifier::when_used_as_spec(spec_powf)]
    pub fn powf(self, exponent: Scalar) -> (r: Scalar)
        ensures
            r == self.spec_powf(exponent),
            exponent@ >= 0 && exponent@ % (SCALE as int) == 0 ==> r == self.spec_powi(
                (exponent@ / (SCALE as int)) as nat,
            ),
    {
        proof {
            if exponent@ >= 0 && exponent@ % (SCALE as int) == 0 {
                lemma_powf_whole(self, (exponent@ / (SCALE as int)) as nat);
            }
        }
        if exponent.raw < 0 {
            let opposite: Scalar = exponent.neg();
            let whole: u64 = (opposite.raw / SCALE) as u64;
            let power: Scalar = self.powi(whole).mul(
                self.pow_fraction(opposite.raw % SCALE, FRACTION_BITS),
            );
            Scalar { raw: SCALE }.div(power)
        } else {
            let whole: u64 = (exponent.raw / SCALE) as u64;
            self.powi(whole).mul(self.pow_fraction(exponent.raw % SCALE, FRACTION_BITS))
        }
    }

    /// The smaller of the two.
    #[verifier::when_used_as_spec(spec_min)]
    pub fn min(self, rhs: Scalar) -> (r: Scalar)
        ensures
            r == self.spec_min(rhs),
    {
        if self.raw <= rhs.raw {
            self
        } else {
            rhs
        }
    }

    /// The larger of the two.
    #[verifier::when_used_as_spec(spec_max)]
    pub fn max(self, rhs: Scalar) -> (r: Scalar)
        ensures
            r == self.spec_max(rhs),
    {
        if self.raw >= rhs.raw {
            self
        } else {
            rhs
        }
    }

    /// The absolute value; the least value gives the greatest.
    #[verifier::when_used_as_spec(spec_abs)]
    pub fn abs(self) -> (r: Scalar)
        ensures
            r == self.spec_abs(),
    {
        if self.raw >= 0 {
            self
        } else {
            self.neg()
        }
    }

    /// Half of the value, rounded down to a whole number.
    pub fn half_floor(self) -> (k: i64)
        ensures
            k == self.spec_half_floor(),
    {
        let d: i64 = 2 * SCALE;
        if self.raw >= 0 {
            self.raw / d
        } else {
            let m: i64 = -(self.raw + 1);
            -(m / d) - 1
        }
    }

    /// The value as a colour byte: held to the unit interval, scaled to 255 and
    /// rounded down.
    #[verifier::when_used_as_spec(spec_to_channel)]
    pub fn to_channel(self) -> (byte: u8)
        ensures
            byte == self.spec_to_channel(),
    {
        if self.raw <= 0 {
            0
        } else if self.raw >= SCALE {
            255
        } else {
            ((255 * self.raw) / SCALE) as u8
        }
    }
}

/// The absolute value of `x`, which always fits the wider unsigned type.
pub fn magnitude(x: i64) -> (m: u128)
    ensures
        m == if x >= 0 { x as int } else { -(x as int) },
{
    if x >= 0 {
        x as u128
    } else {
        (-(x as i128)) as u128
    }
}

/// The square root of `n`, rounded up, found by bisection.
pub fn root_up_u128(n: u128) -> (r: u128)
    ensures
        r == root_up(n as int),
        r <= 0x1_0000_0000_0000_0000u128,
{
    if n == 0 {
        proof {
            lemma_root_up_is(0, 0);
        }
        return 0;
    }
    let mut lo: u128 = 0;
    let mut hi: u128 = 0x1_0000_0000_0000_0000u128;
    while hi - lo > 1
        invariant
            lo < hi <= 0x1_0000_0000_0000_0000u128,
            lo * lo < n,
            n <= hi * hi,
        decreases hi - lo,
    {
        let mid: u128 = lo + (hi - lo) / 2;
        assert(mid * mid <= 0xffff_ffff_ffff_ffffu128 * 0xffff_ffff_ffff_ffffu128)
            by (nonlinear_arith)
            requires
                mid <= 0xffff_ffff_ffff_ffffu128,
        ;
        if mid * mid < n {
            lo = mid;
        } else {
            hi = mid;
        }
    }
    proof {
        lemma_root_up_is(n as int, hi as int);
    }
    hi
}

/// At most one number is the rounded-up root of `n`.
pub proof fn lemma_root_up_unique(n: int, r1: int, r2: int)
    requires
        is_root_up(n, r1),
        is_root_up(n, r2),
    ensures
        r1 == r2,
{
    if r1 < r2 {
        assert(r1 * r1 <= (r2 - 1) * (r2 - 1)) by (nonlinear_arith)
            requires
                0 <= r1 <= r2 - 1,
        ;
    } else if r2 < r1 {
        assert(r2 * r2 <= (r1 - 1) * (r1 - 1)) by (nonlinear_arith)
            requires
                0 <= r2 <= r1 - 1,
        ;
    }
}

/// Whatever meets the definition of the rounded-up root is the root.
pub proof fn lemma_root_up_is(n: int, r: int)
    requires
        is_root_up(n, r),
    ensures
        root_up(n) == r,
{
    lemma_root_up_unique(n, r, root_up(n));
}

/// Every number has a rounded-up root.
pub proof fn lemma_root_up_exists(n: int)
    ensures
        is_root_up(n, root_up(n)),
    decreases n,
{
    if n <= 0 {
        assert(is_root_up(n, 0));
    } else {
        lemma_root_up_exists(n - 1);
        let r = root_up(n - 1);
        if r * r >= n {
            assert(is_root_up(n, r));
        } else {
            assert((r + 1) * (r + 1) == r * r + 2 * r + 1) by (nonlinear_arith);
            assert(is_root_up(n, r + 1));
        }
    }
}

/// The rounded-up root of a number below `bound` squared is at most `bound`.
pub proof fn lemma_root_up_bound(n: int, bound: int)
    requires
        0 <= bound,
        n <= bound * bound,
    ensures
        0 <= root_up(n) <= bound,
{
    lemma_root_up_exists(n);
    let r = root_up(n);
    if r > bound {
        assert((r - 1) * (r - 1) >= bound * bound) by (nonlinear_arith)
            requires
                r - 1 >= bound,
                bound >= 0,
        ;
    }
}

/// The rounded-up root of a number above the square of `x` is above `x`.
pub proof fn lemma_root_up_exceeds(n: int, x: int)
    requires
        x * x < n,
    ensures
        root_up(n) > x,
        root_up(n) > -x,
{
    lemma_root_up_exists(n);
    let r = root_up(n);
    if r <= x {
        assert(r * r <= x * x) by (nonlinear_arith)
            requires
                0 <= r <= x,
        ;
    }
    if r <= -x {
        assert(r * r <= x * x) by (nonlinear_arith)
            requires
                0 <= r <= -x,
        ;
    }
}

/// A quotient rounded toward zero, for a positive divisor: it has the sign of
/// the dividend and is off by less than one.
pub proof fn lemma_quot_bounds(n: int, d: int)
    requires
        d > 0,
    ensures
        n >= 0 ==> 0 <= quot(n, d) * d <= n < quot(n, d) * d + d,
        n <= 0 ==> quot(n, d) * d - d < n <= quot(n, d) * d <= 0,
        quot(-n, d) == -quot(n, d),
{
    if n >= 0 {
        assert(0 <= (n / d) * d <= n < (n / d) * d + d) by (nonlinear_arith)
            requires
                n >= 0,
                d > 0,
        ;
    }
    if n <= 0 {
        let m = -n;
        assert(0 <= (m / d) * d <= m < (m / d) * d + d) by (nonlinear_arith)
            requires
                m >= 0,
                d > 0,
        ;
        assert((-(m / d)) * d == -((m / d) * d)) by (nonlinear_arith);
        assert(0int / d == 0) by (nonlinear_arith)
            requires
                d > 0,
        ;
    }
}

/// A quotient that comes out even is exact.
pub proof fn lemma_quot_exact(q: int, d: int)
    requires
        d > 0,
    ensures
        quot(q * d, d) == q,
{
    if q >= 0 {
        assert(q * d >= 0 && (q * d) / d == q) by (nonlinear_arith)
            requires
                q >= 0,
                d > 0,
        ;
    } else {
        assert(-(q * d) == (-q) * d && (-q) * d > 0 && ((-q) * d) / d == -q) by (nonlinear_arith)
            requires
                q < 0,
                d > 0,
        ;
    }
}

/// Squaring and then taking the root gives the number back to within the
/// rounding of the square: never more than the number, and short of it by
/// [`ROOT_SLACK`] billionths at most. Above one half, and for whole numbers
/// of ten-thousandths, it gives the number itself.
pub proof fn lemma_root_of_square(x: Scalar)
    requires
        0 <= x@ <= MAX_SQUARED,
    ensures
        x@ - ROOT_SLACK <= x.spec_mul(x).spec_sqrt()@ <= x@,
        2 * x@ > SCALE || x@ % 100_000 == 0 ==> x.spec_mul(x).spec_sqrt() == x,
{
    let s = SCALE as int;
    let r = x@;
    assert(0 <= r * r <= 90_000_000_000_000 * 90_000_000_000_000) by (nonlinear_arith)
        requires
            0 <= r <= 90_000_000_000_000,
    ;
    lemma_quot_bounds(r * r, s);
    let rr = quot(r * r, s);
    assert(x.spec_mul(x)@ == rr);
    let n = rr * s;
    lemma_root_up_exists(n);
    lemma_root_up_bound(n, r);
    let h = root_up(n);
    assert(x.spec_mul(x).spec_sqrt()@ == h);
    if h + 31_623 <= r {
        assert(h * h <= (r - 31_623) * (r - 31_623)) by (nonlinear_arith)
            requires
                0 <= h <= r - 31_623,
        ;
        assert((r - 31_623) * (r - 31_623) <= r * r - 1_000_014_129) by (nonlinear_arith)
            requires
                r >= 31_623,
        ;
    }
    if 2 * r > s || r % 100_000 == 0 {
        assert((r - 1) * (r - 1) == r * r - 2 * r + 1) by (nonlinear_arith);
        if r % 100_000 == 0 {
            let k = r / 100_000;
            assert(r * r == (10 * (k * k)) * s) by (nonlinear_arith)
                requires
                    r == k * 100_000,
                    s == 1_000_000_000,
            ;
            lemma_quot_exact(10 * (k * k), s);
        }
        lemma_root_up_is(n, r);
    }
}

/// With no fractional part left, the fractional power is one.
pub proof fn lemma_pow_fraction_of_nothing(base: Scalar, bits: nat)
    ensures
        base.spec_pow_fraction(0, bits) == (Scalar { raw: SCALE }),
    decreases bits,
{
    if bits > 0 {
        lemma_pow_fraction_of_nothing(base.spec_sqrt(), (bits - 1) as nat);
    }
}

/// For a whole exponent the power is the one found by squaring alone.
pub proof fn lemma_powf_whole(base: Scalar, n: nat)
    requires
        n * SCALE <= i64::MAX,
    ensures
        base.spec_powf(Scalar::of(n * SCALE)) == base.spec_powi(n),
{
    let s = SCALE as int;
    let e = n * s;
    assert(e / s == n && e % s == 0) by (nonlinear_arith)
        requires
            e == n * s,
            s > 0,
            n >= 0,
    ;
    lemma_pow_fraction_of_nothing(base, FRACTION_BITS as nat);
    lemma_quot_exact(base.spec_powi(n)@, s);
}

} // verus!
