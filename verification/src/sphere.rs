//! Spheres and the distance at which a ray meets one.

use vstd::prelude::*;
use crate::material::Material;
use crate::scalar::Scalar;
use crate::scalar::SCALE;
use crate::scalar::lemma_quot_bounds;
use crate::scalar::lemma_quot_exact;
use crate::scalar::lemma_root_of_square;
use crate::scalar::ROOT_SLACK;
use crate::scalar::lemma_root_up_bound;
use crate::scalar::lemma_root_up_exists;
use crate::scalar::lemma_root_up_exceeds;
use crate::scalar::quot;
use crate::scalar::root_up;
use crate::vector::lemma_wide_dot_in_cube;
use crate::vector::size;
use crate::vector::taxicab;
use crate::vector::wide_dot;
use crate::vector::Vec3;

verus! {

/// Largest raw radius of which the laws of this module speak: ten thousand.
pub const MAX_RADIUS: i64 = 10_000 * SCALE;

/// A ball in space with the material of its surface.
#[derive(Clone, Copy, Debug, PartialEq, Eq, Structural)]
pub struct Sphere {
    pub center: Vec3,
    pub radius: Scalar,
    pub material: Material,
}

impl Sphere {
    /// How far along the ray the centre lies: the offset from the origin to
    /// the centre, projected on the direction.
    pub open spec fn projection(self, origin: Vec3, direction: Vec3) -> Scalar {
        self.center.sub(origin).dot(direction)
    }

    /// The squared distance from the centre to the line of the ray.
    pub open spec fn orth_sq(self, origin: Vec3, direction: Vec3) -> Scalar {
        let delta = self.center.sub(origin);
        let along = self.projection(origin, direction);
        delta.dot(delta).sub(along.mul(along))
    }

    /// Whether `point` lies strictly inside the sphere.
    pub open spec fn contains(self, point: Vec3) -> bool {
        let delta = self.center.sub(point);
        delta.dot(delta)@ < self.radius_sq()@
    }

    /// The radius squared.
    pub open spec fn radius_sq(self) -> Scalar {
        self.radius.mul(self.radius)
    }

    /// Half the length of the chord that the sphere cuts from the line.
    pub open spec fn half_chord(self, origin: Vec3, direction: Vec3) -> Scalar {
        self.radius_sq().sub(self.orth_sq(origin, direction)).sqrt()
    }

    /// The distance from `origin` along `direction` to the surface. When the
    /// line passes farther from the centre than the radius there is none.
    /// Otherwise the near crossing counts if it lies ahead, else the far one
    /// if that lies ahead, else none.
    pub open spec fn spec_ray_intersect(&self, origin: &Vec3, direction: &Vec3) -> Option<Scalar> {
        if self.orth_sq(*origin, *direction)@ > self.radius_sq()@ {
            None
        } else {
            let along = self.projection(*origin, *direction);
            let half = self.half_chord(*origin, *direction);
            let near = along.sub(half);
            let far = along.add(half);
            if near@ < 0 {
                if far@ < 0 {
                    None
                } else {
                    Some(far)
                }
            } else {
                Some(near)
            }
        }
    }

    /// The sphere with the given parts.
    pub fn new(center: Vec3, radius: Scalar, material: Material) -> (s: Sphere)
        ensures
            s == (Sphere { center, radius, material }),
    {
        Sphere { center, radius, material }
    }

    /// The distance at which the ray from `origin` along the unit vector
    /// `direction` meets the sphere, if it does.
    #[verifier::when_used_as_spec(spec_ray_intersect)]
    pub fn ray_intersect(&self, origin: &Vec3, direction: &Vec3) -> (hit: Option<Scalar>)
        ensures
            hit == self.spec_ray_intersect(origin, direction),
            self.orth_sq(*origin, *direction)@ > self.radius_sq()@ ==> hit is None,
            hit matches Some(t) ==> t@ >= 0,
    {
        let delta: Vec3 = self.center.sub(*origin);
        let along: Scalar = delta.dot(*direction);
        let orth_sq: Scalar = delta.dot(delta).sub(along.mul(along));
        let radius_sq: Scalar = self.radius.mul(self.radius);
        if orth_sq.raw > radius_sq.raw {
            return None;
        }
        let half: Scalar = radius_sq.sub(orth_sq).sqrt();
        let near: Scalar = along.sub(half);
        let far: Scalar = along.add(half);
        if near.raw < 0 {
            if far.raw < 0 {
                None
            } else {
                Some(far)
            }
        } else {
            Some(near)
        }
    }
}

/// A ray that misses the sphere meets nothing: where the line of the ray
/// passes the centre at more than the radius, there is no distance.
pub proof fn lemma_passing_ray_misses(sphere: Sphere, origin: Vec3, direction: Vec3)
    requires
        sphere.orth_sq(origin, direction)@ > sphere.radius_sq()@,
    ensures
        sphere.spec_ray_intersect(&origin, &direction) is None,
{
}

/// A ray aimed along an axis at the centre of a sphere, from farther than
/// the radius, meets it at the distance to the centre less the radius, to
/// within the rounding of the squared radius: never nearer, and farther by
/// [`ROOT_SLACK`] billionths at most, whatever the radius. For a radius above
/// one half, or of a whole number of ten-thousandths, the distance is exact.
pub proof fn lemma_head_on_ray_meets_near_side(
    sphere: Sphere,
    origin: Vec3,
    direction: Vec3,
    distance: Scalar,
)
    requires
        direction.is_axis(),
        sphere.center.sub(origin) == direction.scale(distance),
        0 < sphere.radius@ < distance@ <= MAX_RADIUS,
    ensures
        sphere.spec_ray_intersect(&origin, &direction) matches Some(t) && distance@
            - sphere.radius@ <= t@ <= distance@ - sphere.radius@ + ROOT_SLACK,
        2 * sphere.radius@ > SCALE || sphere.radius@ % 100_000 == 0
            ==> sphere.spec_ray_intersect(&origin, &direction) == Some(
            distance.sub(sphere.radius),
        ),
{
    let s = SCALE as int;
    let d = distance@;
    let delta = sphere.center.sub(origin);
    lemma_quot_exact(d, s);
    lemma_quot_exact(-d, s);
    lemma_quot_exact(0, s);
    assert(s * d == d * s && (-s) * d == (-d) * s && 0 * d == 0 * s) by (nonlinear_arith);
    assert((-d) * (-s) == d * s && (-d) * (-d) == d * d && d * 0 == 0 && (-d) * 0 == 0 && 0 * 0
        == 0int && 0 * s == 0 && 0 * (-s) == 0) by (nonlinear_arith);
    assert(wide_dot(delta, direction) == d * s);
    assert(wide_dot(delta, delta) == d * d);
    let along = sphere.projection(origin, direction);
    assert(along@ == d);
    assert(0 < d * d <= 10_000_000_000_000 * 10_000_000_000_000) by (nonlinear_arith)
        requires
            0 < d <= 10_000_000_000_000,
    ;
    lemma_quot_bounds(d * d, s);
    assert(sphere.orth_sq(origin, direction)@ == 0);
    lemma_root_of_square(sphere.radius);
    assert(sphere.radius_sq().sub(sphere.orth_sq(origin, direction)) == sphere.radius_sq());
}

/// By how many billionths at most the projection of the centre on a nearly
/// unit direction falls short of the raw distance `d` to the centre.
pub open spec fn aim_slack(d: int) -> int {
    6 * (d / (SCALE as int) + 1) + 3
}

/// By how many billionths squared at most rounding moves the squared
/// distance from the centre to a line through it at the raw distance `d`.
pub open spec fn miss_slack(d: int) -> int {
    22 * ((d / (SCALE as int) + 1) * (d / (SCALE as int) + 1))
}

/// By how many billionths at most the half chord then differs from the raw
/// radius `r`.
pub open spec fn chord_slack(d: int, r: int) -> int {
    ((miss_slack(d) + 1) * SCALE) / r + 1
}

/// One component of a direction times a distance, against the exact
/// product: with `q` the rounded product and `e` what rounding dropped, `e`
/// has the sign of the component and is less than one in size.
proof fn lemma_scaled_component(u: int, d: int, q: int)
    requires
        -SCALE <= u <= SCALE,
        0 < d <= MAX_RADIUS,
        q == quot(u * d, SCALE as int),
    ensures
        -d <= q <= d,
        0 <= (u * d - q * SCALE) * u <= SCALE * size(u),
        0 <= (u * d - q * SCALE) * (u * d - q * SCALE) <= SCALE * SCALE,
        SCALE * (q * u) == d * (u * u) - (u * d - q * SCALE) * u,
        (SCALE * SCALE) * (q * q) == (d * d) * (u * u) - 2 * d * ((u * d - q * SCALE) * u) + (u * d
            - q * SCALE) * (u * d - q * SCALE),
{
    let s = SCALE as int;
    let n = u * d;
    lemma_quot_bounds(n, s);
    let e = n - q * s;
    assert(-s * d <= n <= s * d) by (nonlinear_arith)
        requires
            n == u * d,
            -s <= u <= s,
            d > 0,
    ;
    assert(-d <= q <= d) by (nonlinear_arith)
        requires
            s > 0,
            -s * d <= n <= s * d,
            (n >= 0 && 0 <= q * s <= n) || (n <= 0 && n <= q * s <= 0),
    ;
    assert((u >= 0 && n >= 0) || (u <= 0 && n <= 0)) by (nonlinear_arith)
        requires
            n == u * d,
            d > 0,
    ;
    assert((u >= 0 && 0 <= e < s) || (u <= 0 && -s < e <= 0));
    assert(0 <= e * u <= s * size(u)) by (nonlinear_arith)
        requires
            (u >= 0 && 0 <= e < s && size(u) == u) || (u <= 0 && -s < e <= 0 && size(u) == -u),
    ;
    assert(0 <= e * e <= s * s) by (nonlinear_arith)
        requires
            -s < e < s,
    ;
    assert(s * (q * u) == d * (u * u) - e * u) by (nonlinear_arith)
        requires
            e == u * d - q * s,
    ;
    let qs = q * s;
    assert(qs * qs == (s * s) * (q * q)) by (nonlinear_arith)
        requires
            qs == q * s,
    ;
    assert(qs * qs == (d * d) * (u * u) - 2 * d * (e * u) + e * e) by (nonlinear_arith)
        requires
            qs == u * d - e,
    ;
}

/// A ray aimed at the centre of a sphere along any direction of nearly unit
/// length, from farther than the radius, meets it at the distance to the
/// centre less the radius, to within rounding: nearer by [`aim_slack`] plus
/// [`chord_slack`] billionths at most, and farther by [`chord_slack`] at most.
/// The sphere must not be too small to be met at all at that distance, and
/// the origin not so near the surface that rounding puts it inside.
#[verifier::rlimit(40)]
pub proof fn lemma_aimed_ray_meets_near_side(
    sphere: Sphere,
    origin: Vec3,
    direction: Vec3,
    distance: Scalar,
)
    requires
        direction.in_unit_cube(),
        direction.is_nearly_unit(),
        sphere.center.sub(origin) == direction.scale(distance),
        0 < sphere.radius@ < distance@ <= MAX_RADIUS,
        sphere.radius@ * sphere.radius@ >= 2 * (miss_slack(distance@) + 1) * SCALE,
        distance@ - sphere.radius@ >= aim_slack(distance@) + chord_slack(
            distance@,
            sphere.radius@,
        ),
    ensures
        sphere.spec_ray_intersect(&origin, &direction) matches Some(t) && distance@
            - sphere.radius@ - aim_slack(distance@) - chord_slack(distance@, sphere.radius@) <= t@
            <= distance@ - sphere.radius@ + chord_slack(distance@, sphere.radius@),
{
    let s = SCALE as int;
    let d = distance@;
    let r = sphere.radius@;
    let k = d / s + 1;
    let a_slack = aim_slack(d);
    let b = miss_slack(d);
    let h_slack = chord_slack(d, r);
    let delta = sphere.center.sub(origin);
    let ux = direction.x@;
    let uy = direction.y@;
    let uz = direction.z@;
    let uu = wide_dot(direction, direction);
    let qx = delta.x@;
    let qy = delta.y@;
    let qz = delta.z@;
    assert(1 <= k <= 10_001 && (k - 1) * s <= d < k * s);
    assert(b == 22 * (k * k));
    assert(1 <= k * k <= 10_001 * 10_001) by (nonlinear_arith)
        requires
            1 <= k <= 10_001,
    ;
    // the offset to the centre, component by component
    lemma_scaled_component(ux, d, quot(ux * d, s));
    lemma_scaled_component(uy, d, quot(uy * d, s));
    lemma_scaled_component(uz, d, quot(uz * d, s));
    assert(qx == quot(ux * d, s) && qy == quot(uy * d, s) && qz == quot(uz * d, s));
    let gx = (ux * d - qx * s) * ux;
    let gy = (uy * d - qy * s) * uy;
    let gz = (uz * d - qz * s) * uz;
    let hx = (ux * d - qx * s) * (ux * d - qx * s);
    let hy = (uy * d - qy * s) * (uy * d - qy * s);
    let hz = (uz * d - qz * s) * (uz * d - qz * s);
    let g = gx + gy + gz;
    let hh = hx + hy + hz;
    let unit = Vec3 { x: Scalar { raw: SCALE }, y: Scalar { raw: SCALE }, z: Scalar { raw: SCALE } };
    lemma_wide_dot_in_cube(direction, unit);
    let t = taxicab(direction);
    assert(t <= 2 * s) by (nonlinear_arith)
        requires
            t * t <= 3 * uu,
            uu <= s * s,
            t >= 0,
            s > 0,
    ;
    assert(s * size(ux) + s * size(uy) + s * size(uz) == s * t) by (nonlinear_arith)
        requires
            t == size(ux) + size(uy) + size(uz),
    ;
    assert(0 <= g <= 2 * (s * s)) by (nonlinear_arith)
        requires
            0 <= g <= s * t,
            t <= 2 * s,
            s > 0,
    ;
    assert(0 <= hh <= 3 * (s * s));
    // the projection
    let p = wide_dot(delta, direction);
    assert(s * p == d * uu - g) by (nonlinear_arith)
        requires
            p == qx * ux + qy * uy + qz * uz,
            uu == ux * ux + uy * uy + uz * uz,
            g == gx + gy + gz,
            s * (qx * ux) == d * (ux * ux) - gx,
            s * (qy * uy) == d * (uy * uy) - gy,
            s * (qz * uz) == d * (uz * uz) - gz,
    ;
    assert(d * s - 6 * d - 2 * s <= p <= d * s) by (nonlinear_arith)
        requires
            s * p == d * uu - g,
            s * s - 6 * s <= uu <= s * s,
            0 <= g <= 2 * (s * s),
            d > 0,
            s > 0,
    ;
    lemma_quot_bounds(p, s);
    let a = quot(p, s);
    assert(d >= 9);
    assert(p >= 0);
    assert(d - a_slack <= a <= d) by (nonlinear_arith)
        requires
            a * s <= p < a * s + s,
            d * s - 6 * d - 2 * s <= p <= d * s,
            d < k * s,
            a_slack == 6 * k + 3,
            s > 0,
    ;
    let along = sphere.projection(origin, direction);
    assert(along@ == a);
    // the squared distance to the centre
    let sum = wide_dot(delta, delta);
    let ss = s * s;
    assert(ss * sum == (d * d) * uu - 2 * d * g + hh) by (nonlinear_arith)
        requires
            sum == qx * qx + qy * qy + qz * qz,
            uu == ux * ux + uy * uy + uz * uz,
            g == gx + gy + gz,
            hh == hx + hy + hz,
            ss * (qx * qx) == (d * d) * (ux * ux) - 2 * d * gx + hx,
            ss * (qy * qy) == (d * d) * (uy * uy) - 2 * d * gy + hy,
            ss * (qz * qz) == (d * d) * (uz * uz) - 2 * d * gz + hz,
    ;
    let dsq = d * d;
    assert(0 < dsq <= 10_000_000_000_000 * 10_000_000_000_000) by (nonlinear_arith)
        requires
            dsq == d * d,
            0 < d <= 10_000_000_000_000,
    ;
    assert(sum <= dsq + 3) by (nonlinear_arith)
        requires
            ss * sum == dsq * uu - 2 * d * g + hh,
            uu <= ss,
            ss == s * s,
            g >= 0,
            d > 0,
            hh <= 3 * ss,
            dsq >= 0,
            s > 0,
    ;
    assert(s * sum >= s * dsq - 6 * dsq - 4 * (d * s)) by (nonlinear_arith)
        requires
            ss * sum == dsq * uu - 2 * d * g + hh,
            uu >= ss - 6 * s,
            ss == s * s,
            g <= 2 * ss,
            d > 0,
            hh >= 0,
            dsq >= 0,
            s > 0,
    ;
    assert(sum >= 0) by (nonlinear_arith)
        requires
            sum == qx * qx + qy * qy + qz * qz,
    ;
    lemma_quot_bounds(sum, s);
    let dd = quot(sum, s);
    assert(delta.dot(delta)@ == dd);
    // the square of the projection
    let asq = a * a;
    assert(dsq - 2 * (d * a_slack) <= asq <= dsq) by (nonlinear_arith)
        requires
            asq == a * a,
            dsq == d * d,
            0 <= d - a_slack <= a <= d,
    ;
    lemma_quot_bounds(asq, s);
    let pp = quot(asq, s);
    assert(along.mul(along)@ == pp);
    let orth = dd - pp;
    assert(sphere.orth_sq(origin, direction)@ == orth);
    // rounding moves the squared distance to the line by little
    assert(d * a_slack <= 9 * (k * k) * s) by (nonlinear_arith)
        requires
            a_slack == 6 * k + 3,
            0 < d < k * s,
            k >= 1,
            s > 0,
    ;
    assert(dsq <= (k * k) * (s * s)) by (nonlinear_arith)
        requires
            dsq == d * d,
            0 < d < k * s,
    ;
    assert(d * s <= k * (s * s)) by (nonlinear_arith)
        requires
            0 < d < k * s,
            s > 0,
    ;
    assert(k <= k * k) by (nonlinear_arith)
        requires
            k >= 1,
    ;
    assert(-b <= orth <= b) by (nonlinear_arith)
        requires
            orth == dd - pp,
            dd * s <= sum < dd * s + s,
            pp * s <= asq < pp * s + s,
            sum <= dsq + 3,
            s * sum >= s * dsq - 6 * dsq - 4 * (d * s),
            dsq - 2 * (d * a_slack) <= asq <= dsq,
            d * a_slack <= 9 * (k * k) * s,
            dsq <= (k * k) * (s * s),
            d * s <= k * (s * s),
            1 <= k <= k * k,
            b == 22 * (k * k),
            s == 1_000_000_000,
    ;
    // the radius squared
    let rsq = r * r;
    assert(0 < rsq <= 10_000_000_000_000 * 10_000_000_000_000) by (nonlinear_arith)
        requires
            rsq == r * r,
            0 < r <= 10_000_000_000_000,
    ;
    lemma_quot_bounds(rsq, s);
    let rr = quot(rsq, s);
    assert(sphere.radius_sq()@ == rr);
    assert(rr >= 2 * (b + 1)) by (nonlinear_arith)
        requires
            rr * s <= rsq < rr * s + s,
            rsq >= 2 * (b + 1) * s,
            s > 0,
    ;
    // the half chord
    let x = rr - orth;
    assert(sphere.radius_sq().sub(sphere.orth_sq(origin, direction))@ == x);
    let n = x * s;
    assert(rsq - (b + 1) * s < n <= rsq + b * s) by (nonlinear_arith)
        requires
            n == x * s,
            x == rr - orth,
            -b <= orth <= b,
            rr * s <= rsq < rr * s + s,
            s > 0,
    ;
    let c = (b + 1) * s;
    assert(h_slack == c / r + 1);
    assert(c < r * h_slack && r * (h_slack - 1) <= c) by (nonlinear_arith)
        requires
            h_slack == c / r + 1,
            r > 0,
            c >= 0,
    ;
    assert(r >= 2) by (nonlinear_arith)
        requires
            rsq == r * r,
            rsq >= 2 * c,
            c >= 1_000_000_000,
            r > 0,
    ;
    assert(2 * (r * (h_slack - 1)) <= r * r) by (nonlinear_arith)
        requires
            r * (h_slack - 1) <= c,
            rsq == r * r,
            rsq >= 2 * c,
    ;
    assert(1 <= h_slack <= r) by (nonlinear_arith)
        requires
            2 * (r * (h_slack - 1)) <= r * r,
            c < r * h_slack,
            c >= 0,
            r >= 2,
    ;
    let m = r + h_slack;
    assert(n <= m * m) by (nonlinear_arith)
        requires
            m == r + h_slack,
            n <= rsq + c,
            rsq == r * r,
            c < r * h_slack,
            h_slack >= 0,
            r > 0,
    ;
    lemma_root_up_bound(n, m);
    lemma_root_up_exists(n);
    let half = root_up(n);
    assert(sphere.half_chord(origin, direction)@ == half);
    if half < r - h_slack {
        assert(half * half <= (r - h_slack) * (r - h_slack)) by (nonlinear_arith)
            requires
                0 <= half <= r - h_slack,
        ;
        assert((r - h_slack) * (r - h_slack) <= rsq - c) by (nonlinear_arith)
            requires
                rsq == r * r,
                0 <= h_slack <= r,
                c < r * h_slack,
        ;
    }
    assert(r - h_slack <= half <= r + h_slack);
}

/// A ray that starts strictly inside a sphere meets it, at the far crossing
/// and at a positive distance, whatever its direction.
#[verifier::rlimit(40)]
pub proof fn lemma_inside_ray_meets_far_side(sphere: Sphere, origin: Vec3, direction: Vec3)
    requires
        0 < sphere.radius@ <= MAX_RADIUS,
        direction.in_unit_cube(),
        sphere.contains(origin),
    ensures
        sphere.spec_ray_intersect(&origin, &direction) == Some(
            sphere.projection(origin, direction).add(sphere.half_chord(origin, direction)),
        ),
        sphere.projection(origin, direction).add(sphere.half_chord(origin, direction))@ > 0,
        sphere.projection(origin, direction).sub(sphere.half_chord(origin, direction))@ < 0,
{
    let s = SCALE as int;
    let delta = sphere.center.sub(origin);
    let r = sphere.radius@;
    let sum = wide_dot(delta, delta);
    let p = wide_dot(delta, direction);
    let rr = sphere.radius_sq()@;
    let dd = delta.dot(delta)@;
    // the radius squared does not saturate
    assert(0 < r * r <= 10_000_000_000_000 * 10_000_000_000_000) by (nonlinear_arith)
        requires
            0 < r <= 10_000_000_000_000,
    ;
    lemma_quot_bounds(r * r, s);
    assert(rr == quot(r * r, s));
    assert(rr <= 100_000_000_000_000_000);
    // nor does the squared distance to the centre
    lemma_wide_dot_in_cube(delta, direction);
    lemma_quot_bounds(sum, s);
    assert(dd == quot(sum, s));
    assert(sum < rr * s);
    // the projection is bounded through the length of the offset
    let l = taxicab(delta);
    let q = quot(p, s);
    lemma_quot_bounds(p, s);
    assert(-l <= q <= l) by (nonlinear_arith)
        requires
            s > 0,
            -l * s <= p <= l * s,
            (p >= 0 && 0 <= q * s <= p) || (p <= 0 && p <= q * s <= 0),
    ;
    assert(q * q <= l * l) by (nonlinear_arith)
        requires
            -l <= q <= l,
    ;
    assert(q * q < 300_000_000_000_000_000_000_000_000);
    assert(-20_000_000_000_000 < q < 20_000_000_000_000) by (nonlinear_arith)
        requires
            q * q < 300_000_000_000_000_000_000_000_000,
    ;
    let along = sphere.projection(origin, direction);
    assert(along@ == q);
    // the square of the projection
    let pp = along.mul(along)@;
    lemma_quot_bounds(q * q, s);
    assert(q * q >= 0) by (nonlinear_arith);
    assert(pp == quot(q * q, s));
    assert(pp * s <= q * q < pp * s + s);
    assert(pp <= 300_000_000_000_000_000);
    let orth = sphere.orth_sq(origin, direction)@;
    assert(orth == dd - pp);
    let x = sphere.radius_sq().sub(sphere.orth_sq(origin, direction))@;
    assert(x == rr - dd + pp);
    assert(x * s > q * q) by (nonlinear_arith)
        requires
            x >= pp + 1,
            q * q < pp * s + s,
            s > 0,
    ;
    assert(x * s <= 400_000_000_000_000_000_000_000_000);
    // the half chord exceeds the projection in size
    let h = root_up(x * s);
    lemma_root_up_exceeds(x * s, q);
    lemma_root_up_bound(x * s, 20_000_000_000_000);
    assert(sphere.half_chord(origin, direction)@ == h);
}

} // verus!
