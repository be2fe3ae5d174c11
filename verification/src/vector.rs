//! Three-component vectors for points, directions and colours, and the
//! four-component weights of a surface.

use vstd::prelude::*;
use crate::scalar::Scalar;
use crate::scalar::SCALE;
use crate::scalar::lemma_quot_bounds;
use crate::scalar::lemma_root_up_bound;
use crate::scalar::lemma_root_up_exists;
use crate::scalar::magnitude;
use crate::scalar::quot;
use crate::scalar::root_up;
use crate::scalar::root_up_u128;

verus! {

/// A point, a direction or a colour.
#[derive(Clone, Copy, Debug, PartialEq, Eq, Structural)]
pub struct Vec3 {
    pub x: Scalar,
    pub y: Scalar,
    pub z: Scalar,
}

/// Four weights.
#[derive(Clone, Copy, Debug, PartialEq, Eq, Structural)]
pub struct Vec4 {
    pub x: Scalar,
    pub y: Scalar,
    pub z: Scalar,
    pub w: Scalar,
}

/// The exact sum of the products of the components, in squared raw units.
pub open spec fn wide_dot(a: Vec3, b: Vec3) -> int {
    a.x@ * b.x@ + a.y@ * b.y@ + a.z@ * b.z@
}

impl Vec4 {
    /// The four weights in order.
    pub fn new(x: Scalar, y: Scalar, z: Scalar, w: Scalar) -> (v: Vec4)
        ensures
            v == (Vec4 { x, y, z, w }),
    {
        Vec4 { x, y, z, w }
    }
}

impl Vec3 {
    /// The sum, component by component.
    pub open spec fn spec_add(self, rhs: Vec3) -> Vec3 {
        Vec3 { x: self.x.add(rhs.x), y: self.y.add(rhs.y), z: self.z.add(rhs.z) }
    }

    /// The difference, component by component.
    pub open spec fn spec_sub(self, rhs: Vec3) -> Vec3 {
        Vec3 { x: self.x.sub(rhs.x), y: self.y.sub(rhs.y), z: self.z.sub(rhs.z) }
    }

    /// The opposite vector.
    pub open spec fn spec_neg(self) -> Vec3 {
        Vec3 { x: self.x.neg(), y: self.y.neg(), z: self.z.neg() }
    }

    /// Every component times `s`.
    pub open spec fn spec_scale(self, s: Scalar) -> Vec3 {
        Vec3 { x: self.x.mul(s), y: self.y.mul(s), z: self.z.mul(s) }
    }

    /// The dot product: the exact sum of products, rounded once toward zero.
    pub open spec fn spec_dot(self, rhs: Vec3) -> Scalar {
        Scalar::of(quot(wide_dot(self, rhs), SCALE as int))
    }

    /// The Euclidean length: the root of the exact sum of squares, rounded up.
    pub open spec fn spec_length(self) -> Scalar {
        Scalar::of(root_up(wide_dot(self, self)))
    }

    /// Every component over the length; the zero vector stays zero.
    pub open spec fn spec_normalize(self) -> Vec3 {
        let len = self.spec_length();
        Vec3 { x: self.x.div(len), y: self.y.div(len), z: self.z.div(len) }
    }

    /// Whether the vector is a unit vector along one of the three axes, in
    /// either sense.
    pub open spec fn is_axis(self) -> bool {
        ||| (self.x@ == SCALE || self.x@ == -SCALE) && self.y@ == 0 && self.z@ == 0
        ||| self.x@ == 0 && (self.y@ == SCALE || self.y@ == -SCALE) && self.z@ == 0
        ||| self.x@ == 0 && self.y@ == 0 && (self.z@ == SCALE || self.z@ == -SCALE)
    }

    /// Whether the vector has length one to within the rounding of a
    /// normalization: its squared length is at most one, and short of one by
    /// six billionths at most.
    pub open spec fn is_nearly_unit(self) -> bool {
        SCALE * SCALE - 6 * SCALE <= wide_dot(self, self) <= SCALE * SCALE
    }

    /// Whether no component exceeds the raw `bound` in size.
    pub open spec fn within(self, bound: int) -> bool {
        &&& -bound <= self.x@ <= bound
        &&& -bound <= self.y@ <= bound
        &&& -bound <= self.z@ <= bound
    }

    /// Whether no component exceeds one in size, as holds of every unit
    /// vector.
    pub open spec fn in_unit_cube(self) -> bool {
        &&& -SCALE <= self.x@ <= SCALE
        &&& -SCALE <= self.y@ <= SCALE
        &&& -SCALE <= self.z@ <= SCALE
    }

    /// The colour as three bytes, each channel held to the unit interval.
    pub open spec fn spec_to_rgb(&self) -> (u8, u8, u8) {
        (self.x.to_channel(), self.y.to_channel(), self.z.to_channel())
    }

    /// The vector with the given components.
    pub fn new(x: Scalar, y: Scalar, z: Scalar) -> (v: Vec3)
        ensures
            v == (Vec3 { x, y, z }),
    {
        Vec3 { x, y, z }
    }

    /// The vector with every component equal to `s`.
    pub fn splat(s: Scalar) -> (v: Vec3)
        ensures
            v == (Vec3 { x: s, y: s, z: s }),
    {
        Vec3 { x: s, y: s, z: s }
    }

    /// Adds component by component.
    #[verifier::when_used_as_spec(spec_add)]
    pub fn add(self, rhs: Vec3) -> (v: Vec3)
        ensures
            v == self.spec_add(rhs),
    {
        Vec3 { x: self.x.add(rhs.x), y: self.y.add(rhs.y), z: self.z.add(rhs.z) }
    }

    /// Subtracts component by component.
    #[verifier::when_used_as_spec(spec_sub)]
    pub fn sub(self, rhs: Vec3) -> (v: Vec3)
        ensures
            v == self.spec_sub(rhs),
    {
        Vec3 { x: self.x.sub(rhs.x), y: self.y.sub(rhs.y), z: self.z.sub(rhs.z) }
    }

    /// The opposite vector.
    #[verifier::when_used_as_spec(spec_neg)]
    pub fn neg(self) -> (v: Vec3)
        ensures
            v == self.spec_neg(),
    {
        Vec3 { x: self.x.neg(), y: self.y.neg(), z: self.z.neg() }
    }

    /// Multiplies every component by `s`.
    #[verifier::when_used_as_spec(spec_scale)]
    pub fn scale(self, s: Scalar) -> (v: Vec3)
        ensures
            v == self.spec_scale(s),
    {
        Vec3 { x: self.x.mul(s), y: self.y.mul(s), z: self.z.mul(s) }
    }

    /// The dot product, rounded once. The three products are summed exactly,
    /// negative and positive ones apart, before the one division.
    #[verifier::when_used_as_spec(spec_dot)]
    pub fn dot(self, rhs: Vec3) -> (d: Scalar)
        ensures
            d == self.spec_dot(rhs),
    {
        let px: (bool, u128) = signed_product(self.x.raw, rhs.x.raw);
        let py: (bool, u128) = signed_product(self.y.raw, rhs.y.raw);
        let pz: (bool, u128) = signed_product(self.z.raw, rhs.z.raw);
        let mut above: u128 = 0;
        let mut below: u128 = 0;
        if px.0 {
            below = below + px.1;
        } else {
            above = above + px.1;
        }
        if py.0 {
            below = below + py.1;
        } else {
            above = above + py.1;
        }
        if pz.0 {
            below = below + pz.1;
        } else {
            above = above + pz.1;
        }
        assert(wide_dot(self, rhs) == above - below);
        if above >= below {
            Scalar::from_sign_magnitude(false, (above - below) / (SCALE as u128))
        } else {
            Scalar::from_sign_magnitude(true, (below - above) / (SCALE as u128))
        }
    }

    /// The Euclidean length, rounded up.
    #[verifier::when_used_as_spec(spec_length)]
    pub fn length(self) -> (len: Scalar)
        ensures
            len == self.spec_length(),
    {
        let sx: (bool, u128) = signed_product(self.x.raw, self.x.raw);
        let sy: (bool, u128) = signed_product(self.y.raw, self.y.raw);
        let sz: (bool, u128) = signed_product(self.z.raw, self.z.raw);
        proof {
            assert(self.x@ * self.x@ >= 0) by (nonlinear_arith);
            assert(self.y@ * self.y@ >= 0) by (nonlinear_arith);
            assert(self.z@ * self.z@ >= 0) by (nonlinear_arith);
        }
        let n: u128 = sx.1 + sy.1 + sz.1;
        Scalar::from_sign_magnitude(false, root_up_u128(n))
    }

    /// The vector scaled to unit length. No component of the result exceeds
    /// one in size, and the zero vector stays zero.
    #[verifier::when_used_as_spec(spec_normalize)]
    pub fn normalize(self) -> (v: Vec3)
        ensures
            v == self.spec_normalize(),
            v.in_unit_cube(),
            self.within(MAX_NORMALIZED as int) && self.spec_length()@ >= SCALE
                ==> v.is_nearly_unit(),
    {
        proof {
            lemma_normalize_in_unit_cube(self);
            if self.within(MAX_NORMALIZED as int) && self.spec_length()@ >= SCALE {
                lemma_normalize_is_nearly_unit(self);
            }
        }
        let len: Scalar = self.length();
        Vec3 { x: self.x.div(len), y: self.y.div(len), z: self.z.div(len) }
    }

    /// The colour as red, green and blue bytes.
    #[verifier::when_used_as_spec(spec_to_rgb)]
    pub fn to_rgb(&self) -> (rgb: (u8, u8, u8))
        ensures
            rgb == self.spec_to_rgb(),
    {
        (self.x.to_channel(), self.y.to_channel(), self.z.to_channel())
    }
}

/// The product of two raw values as sign and magnitude.
fn signed_product(a: i64, b: i64) -> (r: (bool, u128))
    ensures
        r.1 <= 0x4000_0000_0000_0000_0000_0000_0000_0000u128,
        a * b == if r.0 {
            -(r.1 as int)
        } else {
            r.1 as int
        },
{
    let m: u128 = magnitude(a);
    let n: u128 = magnitude(b);
    assert(m * n <= 0x4000_0000_0000_0000_0000_0000_0000_0000u128) by (nonlinear_arith)
        requires
            m <= 0x8000_0000_0000_0000u128,
            n <= 0x8000_0000_0000_0000u128,
    ;
    let negative: bool = (a < 0) != (b < 0);
    proof {
        assert(a * b == if negative {
            -(m * n)
        } else {
            (m * n) as int
        }) by (nonlinear_arith)
            requires
                m == (if a >= 0 {
                    a as int
                } else {
                    -(a as int)
                }),
                n == (if b >= 0 {
                    b as int
                } else {
                    -(b as int)
                }),
                negative == ((a < 0) != (b < 0)),
        ;
    }
    (negative, m * n)
}

/// The size of a raw value.
pub open spec fn size(x: int) -> int {
    if x >= 0 {
        x
    } else {
        -x
    }
}

/// The sum of the sizes of the components, raw.
pub open spec fn taxicab(a: Vec3) -> int {
    size(a.x@) + size(a.y@) + size(a.z@)
}

/// Against a vector of the unit cube, the exact dot product is at most the
/// taxicab length, which squared is at most thrice the exact squared length.
pub proof fn lemma_wide_dot_in_cube(a: Vec3, b: Vec3)
    requires
        b.in_unit_cube(),
    ensures
        -taxicab(a) * SCALE <= wide_dot(a, b) <= taxicab(a) * SCALE,
        taxicab(a) * taxicab(a) <= 3 * wide_dot(a, a),
        wide_dot(a, a) >= 0,
{
    let s = SCALE as int;
    let x = a.x@;
    let y = a.y@;
    let z = a.z@;
    assert(-size(x) * s <= x * b.x@ <= size(x) * s) by (nonlinear_arith)
        requires
            -s <= b.x@ <= s,
    ;
    assert(-size(y) * s <= y * b.y@ <= size(y) * s) by (nonlinear_arith)
        requires
            -s <= b.y@ <= s,
    ;
    assert(-size(z) * s <= z * b.z@ <= size(z) * s) by (nonlinear_arith)
        requires
            -s <= b.z@ <= s,
    ;
    assert((size(x) + size(y) + size(z)) * s == size(x) * s + size(y) * s + size(z) * s)
        by (nonlinear_arith);
    let i = size(x);
    let j = size(y);
    let k = size(z);
    assert(x * x == i * i && y * y == j * j && z * z == k * k) by (nonlinear_arith)
        requires
            i == size(x),
            j == size(y),
            k == size(z),
    ;
    assert((i - j) * (i - j) >= 0) by (nonlinear_arith);
    assert((i - k) * (i - k) >= 0) by (nonlinear_arith);
    assert((j - k) * (j - k) >= 0) by (nonlinear_arith);
    assert((i + j + k) * (i + j + k) <= 3 * (i * i + j * j + k * k)) by (nonlinear_arith)
        requires
            (i - j) * (i - j) >= 0,
            (i - k) * (i - k) >= 0,
            (j - k) * (j - k) >= 0,
    ;
    assert(i * i >= 0 && j * j >= 0 && k * k >= 0) by (nonlinear_arith);
}

/// A component over a length that is the saturated root of at least the
/// square of the component is at most one in size.
proof fn lemma_component_over_length(a: Scalar, len: Scalar, root: int)
    requires
        len == Scalar::of(root),
        root >= 0,
        root * root >= a@ * a@,
    ensures
        -SCALE <= a.div(len)@ <= SCALE,
{
    let s = SCALE as int;
    let x = a@;
    assert(-root <= x <= root) by (nonlinear_arith)
        requires
            root >= 0,
            root * root >= x * x,
    ;
    if len@ != 0 {
        let d = len@;
        let q = quot(x * s, d);
        lemma_quot_bounds(x * s, d);
        lemma_quot_bounds(-(x * s), d);
        // the length is the root, or the largest number where the root is
        // larger still; the component is at most one more than that in size
        assert(-(d + 1) <= x <= d + 1);
        assert(-(d + 1) * s <= x * s <= (d + 1) * s) by (nonlinear_arith)
            requires
                -(d + 1) <= x <= d + 1,
                s > 0,
        ;
        assert(d > s || -d <= x <= d);
        assert(-s <= q <= s) by (nonlinear_arith)
            requires
                d > 0,
                s > 0,
                -(d + 1) * s <= x * s <= (d + 1) * s,
                d > s || -d * s <= x * s <= d * s,
                (x * s >= 0 && 0 <= q * d <= x * s) || (x * s <= 0 && x * s <= q * d <= 0),
        ;
    }
}

/// A normalized vector lies in the unit cube.
pub proof fn lemma_normalize_in_unit_cube(v: Vec3)
    ensures
        v.spec_normalize().in_unit_cube(),
{
    let sum = wide_dot(v, v);
    lemma_root_up_exists(sum);
    let root = root_up(sum);
    assert(v.x@ * v.x@ >= 0 && v.y@ * v.y@ >= 0 && v.z@ * v.z@ >= 0) by (nonlinear_arith);
    lemma_component_over_length(v.x, v.spec_length(), root);
    lemma_component_over_length(v.y, v.spec_length(), root);
    lemma_component_over_length(v.z, v.spec_length(), root);
}

/// Largest raw component of a vector whose length does not saturate: five
/// thousand million.
pub const MAX_NORMALIZED: i64 = 5_000_000_000 * SCALE;

/// A vector is at least as long as any of its components is large.
pub proof fn lemma_length_covers_components(v: Vec3)
    requires
        v.within(MAX_NORMALIZED as int),
    ensures
        v.spec_length()@ >= size(v.x@),
        v.spec_length()@ >= size(v.y@),
        v.spec_length()@ >= size(v.z@),
{
    let sum = wide_dot(v, v);
    let x = v.x@;
    let y = v.y@;
    let z = v.z@;
    assert(0 <= x * x <= 5_000_000_000_000_000_000 * 5_000_000_000_000_000_000)
        by (nonlinear_arith)
        requires
            -5_000_000_000_000_000_000 <= x <= 5_000_000_000_000_000_000,
    ;
    assert(0 <= y * y <= 5_000_000_000_000_000_000 * 5_000_000_000_000_000_000)
        by (nonlinear_arith)
        requires
            -5_000_000_000_000_000_000 <= y <= 5_000_000_000_000_000_000,
    ;
    assert(0 <= z * z <= 5_000_000_000_000_000_000 * 5_000_000_000_000_000_000)
        by (nonlinear_arith)
        requires
            -5_000_000_000_000_000_000 <= z <= 5_000_000_000_000_000_000,
    ;
    lemma_root_up_exists(sum);
    lemma_root_up_bound(sum, 9_000_000_000_000_000_000);
    let l = root_up(sum);
    assert(-l <= x <= l) by (nonlinear_arith)
        requires
            l >= 0,
            l * l >= x * x,
    ;
    assert(-l <= y <= l) by (nonlinear_arith)
        requires
            l >= 0,
            l * l >= y * y,
    ;
    assert(-l <= z <= l) by (nonlinear_arith)
        requires
            l >= 0,
            l * l >= z * z,
    ;
}

/// One component of a normalized vector, held against the exact quotient:
/// with `p` the component times the length and `q` the component of the vector
/// times one, `p` has the sign of `q` and falls short of it by less than the
/// length. Then the square of `p` is at most that of `q`, and short of it by
/// at most twice the size of `q` times the length.
proof fn lemma_rounded_square(p: int, q: int, l: int)
    requires
        l > 0,
        (q >= 0 && 0 <= p <= q < p + l) || (q <= 0 && p - l < q <= p <= 0),
    ensures
        q * q - 2 * size(q) * l <= p * p <= q * q,
{
    let a = size(q);
    let b = size(p);
    assert(p * p == b * b && q * q == a * a) by (nonlinear_arith)
        requires
            a == size(q),
            b == size(p),
    ;
    assert(b * b <= a * a) by (nonlinear_arith)
        requires
            0 <= b <= a,
    ;
    if a >= l {
        assert(b * b >= (a - l) * (a - l)) by (nonlinear_arith)
            requires
                0 <= a - l <= b,
        ;
        assert((a - l) * (a - l) == a * a - 2 * a * l + l * l) by (nonlinear_arith);
        assert(l * l >= 0) by (nonlinear_arith);
    } else {
        assert(a * a - 2 * a * l <= 0) by (nonlinear_arith)
            requires
                0 <= a < l,
        ;
        assert(b * b >= 0) by (nonlinear_arith);
    }
}

/// A normalized vector has length one to within rounding. Its squared length
/// is never above one, and falls short of one by at most four billionths
/// plus two over the length of the vector that was normalized: by six
/// billionths at most for a vector of length one or more.
#[verifier::rlimit(40)]
pub proof fn lemma_normalize_is_nearly_unit(v: Vec3)
    requires
        v.within(MAX_NORMALIZED as int),
        v.spec_length()@ > 0,
    ensures
        wide_dot(v.spec_normalize(), v.spec_normalize()) <= SCALE * SCALE,
        v.spec_length()@ * (SCALE * SCALE - wide_dot(v.spec_normalize(), v.spec_normalize())) <= 2
            * (SCALE * SCALE) + 4 * SCALE * v.spec_length()@,
        v.spec_length()@ >= SCALE ==> v.spec_normalize().is_nearly_unit(),
{
    let s = SCALE as int;
    let sum = wide_dot(v, v);
    let x = v.x@;
    let y = v.y@;
    let z = v.z@;
    // the length does not saturate
    assert(x * x <= 5_000_000_000_000_000_000 * 5_000_000_000_000_000_000) by (nonlinear_arith)
        requires
            -5_000_000_000_000_000_000 <= x <= 5_000_000_000_000_000_000,
    ;
    assert(y * y <= 5_000_000_000_000_000_000 * 5_000_000_000_000_000_000) by (nonlinear_arith)
        requires
            -5_000_000_000_000_000_000 <= y <= 5_000_000_000_000_000_000,
    ;
    assert(z * z <= 5_000_000_000_000_000_000 * 5_000_000_000_000_000_000) by (nonlinear_arith)
        requires
            -5_000_000_000_000_000_000 <= z <= 5_000_000_000_000_000_000,
    ;
    lemma_root_up_exists(sum);
    lemma_root_up_bound(sum, 9_000_000_000_000_000_000);
    let l = root_up(sum);
    assert(v.spec_length()@ == l);
    // each component against its exact quotient
    let unit = Vec3 { x: Scalar { raw: SCALE }, y: Scalar { raw: SCALE }, z: Scalar { raw: SCALE } };
    let n = v.spec_normalize();
    lemma_normalize_in_unit_cube(v);
    lemma_quot_bounds(x * s, l);
    lemma_quot_bounds(y * s, l);
    lemma_quot_bounds(z * s, l);
    assert(n.x@ == quot(x * s, l) && n.y@ == quot(y * s, l) && n.z@ == quot(z * s, l));
    let px = n.x@ * l;
    let py = n.y@ * l;
    let pz = n.z@ * l;
    lemma_rounded_square(px, x * s, l);
    lemma_rounded_square(py, y * s, l);
    lemma_rounded_square(pz, z * s, l);
    let w = wide_dot(n, n);
    let ll = l * l;
    let ss = s * s;
    let nxx = n.x@ * n.x@;
    let nyy = n.y@ * n.y@;
    let nzz = n.z@ * n.z@;
    assert(px * px == ll * nxx) by (nonlinear_arith)
        requires
            px == n.x@ * l,
            ll == l * l,
            nxx == n.x@ * n.x@,
    ;
    assert(py * py == ll * nyy) by (nonlinear_arith)
        requires
            py == n.y@ * l,
            ll == l * l,
            nyy == n.y@ * n.y@,
    ;
    assert(pz * pz == ll * nzz) by (nonlinear_arith)
        requires
            pz == n.z@ * l,
            ll == l * l,
            nzz == n.z@ * n.z@,
    ;
    assert(ll * nxx + ll * nyy + ll * nzz == ll * w) by (nonlinear_arith)
        requires
            w == nxx + nyy + nzz,
    ;
    let xx = x * x;
    let yy = y * y;
    let zz = z * z;
    assert((x * s) * (x * s) == ss * xx) by (nonlinear_arith)
        requires
            ss == s * s,
            xx == x * x,
    ;
    assert((y * s) * (y * s) == ss * yy) by (nonlinear_arith)
        requires
            ss == s * s,
            yy == y * y,
    ;
    assert((z * s) * (z * s) == ss * zz) by (nonlinear_arith)
        requires
            ss == s * s,
            zz == z * z,
    ;
    assert(ss * xx + ss * yy + ss * zz == ss * sum) by (nonlinear_arith)
        requires
            sum == xx + yy + zz,
    ;
    let t = taxicab(v);
    assert(size(x * s) + size(y * s) + size(z * s) == s * t) by (nonlinear_arith)
        requires
            s > 0,
            t == size(x) + size(y) + size(z),
            size(x * s) == size(x) * s,
            size(y * s) == size(y) * s,
            size(z * s) == size(z) * s,
    ;
    // never above one
    assert((l * l) * w <= (s * s) * sum);
    assert(sum <= l * l);
    assert(w <= s * s) by (nonlinear_arith)
        requires
            (l * l) * w <= (s * s) * sum,
            0 <= sum <= l * l,
            l > 0,
            s > 0,
    ;
    // short of one by little
    lemma_wide_dot_in_cube(v, unit);
    assert(t <= 2 * l) by (nonlinear_arith)
        requires
            t * t <= 3 * sum,
            sum <= l * l,
            t >= 0,
            l > 0,
    ;
    assert(2 * size(x * s) * l + 2 * size(y * s) * l + 2 * size(z * s) * l == 2 * (s * t) * l)
        by (nonlinear_arith)
        requires
            size(x * s) + size(y * s) + size(z * s) == s * t,
    ;
    assert((l * l) * w >= (s * s) * sum - 2 * (s * t) * l);
    assert((l - 1) * (l - 1) == l * l - 2 * l + 1) by (nonlinear_arith);
    assert(sum >= l * l - 2 * l + 2);
    assert((l * l) * (s * s - w) <= (2 * (s * s) + 4 * s * l) * l) by (nonlinear_arith)
        requires
            (l * l) * w >= (s * s) * sum - 2 * (s * t) * l,
            sum >= l * l - 2 * l + 2,
            0 <= t <= 2 * l,
            l > 0,
            s > 0,
    ;
    assert(l * (s * s - w) <= 2 * (s * s) + 4 * s * l) by (nonlinear_arith)
        requires
            (l * l) * (s * s - w) <= (2 * (s * s) + 4 * s * l) * l,
            l > 0,
    ;
    if l >= s {
        assert(s * s - w <= 6 * s) by (nonlinear_arith)
            requires
                l * (s * s - w) <= 2 * (s * s) + 4 * s * l,
                l >= s,
                s > 0,
        ;
    }
}

} // verus!
